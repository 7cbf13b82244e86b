//! The nodes of a snapshot: one for each declaration and one for each source file.

use vstd::prelude::*;
use vstd::string::*;
use vstd::utf8::encode_utf8;

use crate::error::{GraphError, GraphErrorModel, retry_error};
use crate::files::{
    FileId, FileRange, SourceFileModel, SourceFiles, evidence, evidence_of, source_of, source_path,
};
use crate::graph::{
    Graph, GraphModel, MutableShard, MutableShardModel, claimed, claimed_if_free, empty_shard,
    with_node,
};
use crate::moniker::SymbolInformationKind;
use crate::plain::Plain;
use crate::snapshot::{GraphSnapshotNode, GraphSnapshotNodeModel};
use crate::static_index::{
    ReferenceData, ReferenceDataModel, StaticIndexedFile, StaticIndexedFileModel,
    StaticReferenceRole, TokenStaticData, TokenStaticDataModel,
};
use crate::table::{Table, ordered};
use crate::text::{after_last, after_last_text, decimal, decimal_text};

verus! {

/// The kind of the edges that references of a role make.
pub open spec fn reference_kind_name(role: StaticReferenceRole) -> Seq<char> {
    match role {
        StaticReferenceRole::Access => "accesses"@,
        StaticReferenceRole::Call => "calls"@,
        StaticReferenceRole::Decorate => "decorates"@,
        StaticReferenceRole::Export => "exports"@,
        StaticReferenceRole::Import => "imports"@,
        StaticReferenceRole::Instantiate => "instantiates"@,
        StaticReferenceRole::Reference => "references"@,
        StaticReferenceRole::Type => "type_ref"@,
    }
}

/// The kind of the edges that references of a role make.
pub fn reference_kind(role: StaticReferenceRole) -> (kind: &'static str)
    ensures
        kind@ == reference_kind_name(role),
{
    match role {
        StaticReferenceRole::Access => "accesses",
        StaticReferenceRole::Call => "calls",
        StaticReferenceRole::Decorate => "decorates",
        StaticReferenceRole::Export => "exports",
        StaticReferenceRole::Import => "imports",
        StaticReferenceRole::Instantiate => "instantiates",
        StaticReferenceRole::Reference => "references",
        StaticReferenceRole::Type => "type_ref",
    }
}

/// The kind of the nodes of declarations of a kind.
pub open spec fn node_kind_name(kind: SymbolInformationKind) -> Seq<char> {
    match kind {
        SymbolInformationKind::Module => "module"@,
        SymbolInformationKind::Function => "function"@,
        SymbolInformationKind::Macro => "function"@,
        SymbolInformationKind::Method => "method"@,
        SymbolInformationKind::StaticMethod => "method"@,
        SymbolInformationKind::TraitMethod => "method"@,
        SymbolInformationKind::Struct => "class"@,
        SymbolInformationKind::Union => "class"@,
        SymbolInformationKind::Trait => "interface"@,
        SymbolInformationKind::Enum => "enum"@,
        SymbolInformationKind::Type => "type"@,
        SymbolInformationKind::TypeAlias => "type"@,
        SymbolInformationKind::AssociatedType => "type"@,
        SymbolInformationKind::TypeParameter => "type"@,
        SymbolInformationKind::Field => "field"@,
        SymbolInformationKind::Parameter => "parameter"@,
        SymbolInformationKind::SelfParameter => "parameter"@,
        SymbolInformationKind::Attribute => "function"@,
        SymbolInformationKind::Constant => "variable"@,
        SymbolInformationKind::EnumMember => "variable"@,
        SymbolInformationKind::StaticVariable => "variable"@,
        SymbolInformationKind::Variable => "variable"@,
    }
}

/// The kind of the nodes of declarations of a kind.
pub fn graph_node_kind(kind: SymbolInformationKind) -> (name: &'static str)
    ensures
        name@ == node_kind_name(kind),
{
    match kind {
        SymbolInformationKind::Module => "module",
        SymbolInformationKind::Function | SymbolInformationKind::Macro => "function",
        SymbolInformationKind::Method
        | SymbolInformationKind::StaticMethod
        | SymbolInformationKind::TraitMethod => "method",
        SymbolInformationKind::Struct | SymbolInformationKind::Union => "class",
        SymbolInformationKind::Trait => "interface",
        SymbolInformationKind::Enum => "enum",
        SymbolInformationKind::Type
        | SymbolInformationKind::TypeAlias
        | SymbolInformationKind::AssociatedType
        | SymbolInformationKind::TypeParameter => "type",
        SymbolInformationKind::Field => "field",
        SymbolInformationKind::Parameter | SymbolInformationKind::SelfParameter => "parameter",
        SymbolInformationKind::Attribute => "function",
        SymbolInformationKind::Constant
        | SymbolInformationKind::EnumMember
        | SymbolInformationKind::StaticVariable
        | SymbolInformationKind::Variable => "variable",
    }
}

/// Whether a file was indexed.
pub open spec fn is_indexed(indexed: Seq<StaticIndexedFileModel>, file_id: FileId) -> bool {
    exists|i: int| 0 <= i < indexed.len() && (#[trigger] indexed[i]).file_id == file_id
}

/// The paths of the files that were indexed.
pub open spec fn sources_of(
    files: Map<FileId, SourceFileModel>,
    indexed: Seq<StaticIndexedFileModel>,
) -> Map<FileId, Seq<char>> {
    Map::new(|file_id: FileId| is_indexed(indexed, file_id), |file_id: FileId| source_of(files, file_id))
}

/// Whether a path is that of a file that was indexed.
pub open spec fn is_source(
    files: Map<FileId, SourceFileModel>,
    indexed: Seq<StaticIndexedFileModel>,
    source: Seq<char>,
) -> bool {
    exists|i: int|
        0 <= i < indexed.len() && source_of(files, (#[trigger] indexed[i]).file_id) == source
}

/// An empty shard for each path.
pub open spec fn empty_shards(
    files: Map<FileId, SourceFileModel>,
    indexed: Seq<StaticIndexedFileModel>,
) -> Map<Seq<char>, MutableShardModel> {
    Map::new(
        |source: Seq<char>| is_source(files, indexed, source),
        |source: Seq<char>| empty_shard(source),
    )
}

/// The digests of the files that were indexed, by path.
pub open spec fn digests_of(
    files: Map<FileId, SourceFileModel>,
    indexed: Seq<StaticIndexedFileModel>,
    inputs: Map<FileId, Seq<char>>,
    count: int,
) -> Map<Seq<char>, Seq<char>>
    decreases count,
{
    if count <= 0 {
        Map::empty()
    } else {
        let file_id = indexed[count - 1].file_id;
        digests_of(files, indexed, inputs, count - 1).insert(
            source_of(files, file_id),
            inputs[file_id],
        )
    }
}

/// Whether every file that was indexed has a digest.
pub open spec fn inputs_cover(
    indexed: Seq<StaticIndexedFileModel>,
    inputs: Map<FileId, Seq<char>>,
) -> bool {
    forall|i: int| 0 <= i < indexed.len() ==> inputs.contains_key((#[trigger] indexed[i]).file_id)
}

/// The paths of the indexed files, their digests, and an empty shard for each of them.
pub struct Sources {
    pub paths: Table<FileId, String>,
    pub digests: Table<String, String>,
    pub shards: Table<String, MutableShard>,
}

/// Looks up the paths and the digests of the indexed files.
pub fn collect_sources(
    files: &SourceFiles,
    indexed: &Vec<StaticIndexedFile>,
    inputs: &Table<FileId, String>,
) -> (result: Result<Sources, GraphError>)
    ensures
        match result {
            Ok(sources) => {
                &&& inputs_cover(indexed.deep_view(), inputs.deep_view())
                &&& sources.paths.deep_view() == sources_of(files.deep_view(), indexed.deep_view())
                &&& sources.digests.deep_view() == digests_of(
                    files.deep_view(),
                    indexed.deep_view(),
                    inputs.deep_view(),
                    indexed.deep_view().len() as int,
                )
                &&& sources.shards.deep_view() == empty_shards(
                    files.deep_view(),
                    indexed.deep_view(),
                )
            },
            Err(error) => !inputs_cover(indexed.deep_view(), inputs.deep_view())
                && error.deep_view() == GraphErrorModel::Retry(
                "graph source set moved beyond its validated disk inputs; retry"@,
            ),
        },
{
    let ghost f = files.deep_view();
    let ghost all = indexed.deep_view();
    let ghost given = inputs.deep_view();
    let mut paths: Table<FileId, String> = Table::new();
    let mut digests: Table<String, String> = Table::new();
    let mut shards: Table<String, MutableShard> = Table::new();
    let mut index: usize = 0;
    assert(paths.deep_view() =~= sources_of(f, all.take(0)));
    assert(shards.deep_view() =~= empty_shards(f, all.take(0)));
    while index < indexed.len()
        invariant
            index <= indexed.len(),
            f == files.deep_view(),
            all == indexed.deep_view(),
            given == inputs.deep_view(),
            forall|i: int| 0 <= i < index ==> given.contains_key((#[trigger] all[i]).file_id),
            paths.deep_view() == sources_of(f, all.take(index as int)),
            digests.deep_view() == digests_of(f, all, given, index as int),
            shards.deep_view() == empty_shards(f, all.take(index as int)),
        decreases indexed.len() - index,
    {
        let file_id = indexed[index].file_id;
        assert(all[index as int].file_id == file_id);
        let source = source_path(files, file_id);
        let digest = match inputs.get(&file_id) {
            Some(digest) => digest.clone(),
            None => {
                return Err(
                    retry_error("graph source set moved beyond its validated disk inputs; retry"),
                );
            },
        };
        let ghost before = all.take(index as int);
        let ghost after = all.take(index + 1);
        digests.insert(source.clone(), digest);
        shards.insert(source.clone(), MutableShard::empty(source.clone()));
        paths.insert(file_id, source);
        proof {
            assert(after =~= before.push(all[index as int]));
            lemma_sources_extend(f, before, all[index as int]);
        }
        index += 1;
    }
    assert(all.take(index as int) =~= all);
    Ok(Sources { paths, digests, shards })
}

proof fn lemma_sources_extend(
    files: Map<FileId, SourceFileModel>,
    indexed: Seq<StaticIndexedFileModel>,
    file: StaticIndexedFileModel,
)
    ensures
        sources_of(files, indexed.push(file)) == sources_of(files, indexed).insert(
            file.file_id,
            source_of(files, file.file_id),
        ),
        empty_shards(files, indexed.push(file)) == empty_shards(files, indexed).insert(
            source_of(files, file.file_id),
            empty_shard(source_of(files, file.file_id)),
        ),
{
    let longer = indexed.push(file);
    let source = source_of(files, file.file_id);
    assert(longer[indexed.len() as int] == file);
    assert forall|i: int| 0 <= i < indexed.len() implies #[trigger] longer[i] == indexed[i] by {}
    assert forall|file_id: FileId| #[trigger]
        is_indexed(longer, file_id) <==> is_indexed(indexed, file_id) || file_id == file.file_id by {
        if is_indexed(indexed, file_id) {
            let i = choose|i: int|
                0 <= i < indexed.len() && (#[trigger] indexed[i]).file_id == file_id;
            assert(longer[i].file_id == file_id);
        }
        if is_indexed(longer, file_id) {
            let i = choose|i: int| 0 <= i < longer.len() && (#[trigger] longer[i]).file_id == file_id;
            if i < indexed.len() {
                assert(indexed[i].file_id == file_id);
            }
        }
    }
    assert forall|path: Seq<char>| #[trigger]
        is_source(files, longer, path) <==> is_source(files, indexed, path) || path == source by {
        if is_source(files, indexed, path) {
            let i = choose|i: int|
                0 <= i < indexed.len() && source_of(files, (#[trigger] indexed[i]).file_id) == path;
            assert(source_of(files, longer[i].file_id) == path);
        }
        if is_source(files, longer, path) {
            let i = choose|i: int|
                0 <= i < longer.len() && source_of(files, (#[trigger] longer[i]).file_id) == path;
            if i < indexed.len() {
                assert(source_of(files, indexed[i].file_id) == path);
            }
        }
    }
    assert(sources_of(files, longer) =~= sources_of(files, indexed).insert(file.file_id, source));
    assert(empty_shards(files, longer) =~= empty_shards(files, indexed).insert(
        source,
        empty_shard(source),
    ));
}

/// The path under which declarations outside of the workspace appear.
pub open spec fn dependency_source() -> Seq<char> {
    "bundled:///rust/dependencies"@
}

/// Whether a declaration lies outside of the workspace, or nowhere.
pub open spec fn is_outside(token: TokenStaticDataModel) -> bool {
    token.external || token.definition is None
}

/// The path of the file that declares a declaration of the workspace.
pub open spec fn definition_source(
    files: Map<FileId, SourceFileModel>,
    token: TokenStaticDataModel,
) -> Option<Seq<char>> {
    if is_outside(token) {
        None
    } else {
        Some(source_of(files, token.definition->0.file_id))
    }
}

/// The path of the first indexed file that refers to a declaration without declaring it.
pub open spec fn first_reference_source(
    sources: Map<FileId, Seq<char>>,
    references: Seq<ReferenceDataModel>,
) -> Option<Seq<char>>
    decreases references.len(),
{
    if references.len() == 0 {
        None
    } else if !references[0].is_definition && sources.contains_key(references[0].range.file_id) {
        Some(sources[references[0].range.file_id])
    } else {
        first_reference_source(sources, references.drop_first())
    }
}

/// The path of the source file that owns the node of a declaration: the one that owns it already,
/// else the one that declares it, else the first one that refers to it.
pub open spec fn token_owner(
    files: Map<FileId, SourceFileModel>,
    sources: Map<FileId, Seq<char>>,
    owners: Map<Seq<char>, Seq<char>>,
    token: TokenStaticDataModel,
) -> Option<Seq<char>> {
    if owners.contains_key(token.stable_id) {
        Some(owners[token.stable_id])
    } else {
        match definition_source(files, token) {
            Some(source) => Some(source),
            None => first_reference_source(sources, token.references),
        }
    }
}

/// The name of a declaration: the one it is displayed with, else the last part of its qualified
/// name.
pub open spec fn token_name(token: TokenStaticDataModel) -> Option<Seq<char>> {
    match token.display_name {
        Some(name) => Some(name),
        None => match token.qualified_name {
            Some(name) => Some(after_last(name, "::"@)),
            None => None,
        },
    }
}

/// The node of a declaration. One without a name has none.
pub open spec fn token_node(
    files: Map<FileId, SourceFileModel>,
    token: TokenStaticDataModel,
) -> Option<GraphSnapshotNodeModel> {
    match token_name(token) {
        None => None,
        Some(name) => Some(
            GraphSnapshotNodeModel {
                id: token.stable_id,
                kind: node_kind_name(token.kind),
                name,
                qualified_name: token.qualified_name,
                file: match definition_source(files, token) {
                    Some(source) => source,
                    None => dependency_source(),
                },
                external: is_outside(token),
                exported: token.exported,
                signature: token.signature,
                evidence: if is_outside(token) {
                    None
                } else {
                    evidence_of(files, token.definition->0)
                },
            },
        ),
    }
}

/// Adds the node of a declaration to the shard of the source file that owns it.
pub open spec fn token_placed(
    files: Map<FileId, SourceFileModel>,
    sources: Map<FileId, Seq<char>>,
    graph: GraphModel,
    token: TokenStaticDataModel,
) -> GraphModel {
    match (token_node(files, token), token_owner(files, sources, graph.owners, token)) {
        (Some(node), Some(source)) => with_node(
            claimed_if_free(graph, node.id, source),
            source,
            node,
        ),
        _ => graph,
    }
}

/// Adds the nodes of the first declarations.
pub open spec fn tokens_placed(
    files: Map<FileId, SourceFileModel>,
    sources: Map<FileId, Seq<char>>,
    graph: GraphModel,
    tokens: Seq<TokenStaticDataModel>,
    count: int,
) -> GraphModel
    decreases count,
{
    if count <= 0 {
        graph
    } else {
        token_placed(
            files,
            sources,
            tokens_placed(files, sources, graph, tokens, count - 1),
            tokens[count - 1],
        )
    }
}

/// Finds the first indexed file that refers to a declaration without declaring it.
fn find_reference_source(
    sources: &Table<FileId, String>,
    references: &Vec<ReferenceData>,
) -> (source: Option<String>)
    ensures
        source.deep_view() == first_reference_source(sources.deep_view(), references.deep_view()),
{
    let ghost all = references.deep_view();
    let mut index: usize = 0;
    assert(all.skip(0) =~= all);
    while index < references.len()
        invariant
            index <= references.len(),
            all == references.deep_view(),
            first_reference_source(sources.deep_view(), all) == first_reference_source(
                sources.deep_view(),
                all.skip(index as int),
            ),
        decreases references.len() - index,
    {
        let reference = &references[index];
        assert(all.skip(index as int)[0] == reference.deep_view());
        if !reference.is_definition {
            match sources.get(&reference.range.file_id) {
                Some(source) => {
                    return Some(source.clone());
                },
                None => {},
            }
        }
        assert(all.skip(index as int).drop_first() =~= all.skip(index + 1));
        index += 1;
    }
    None
}

/// The name of a declaration.
fn name_of_token(token: &TokenStaticData) -> (name: Option<String>)
    ensures
        name.deep_view() == token_name(token.deep_view()),
{
    match &token.display_name {
        Some(name) => Some(name.clone()),
        None => match &token.qualified_name {
            Some(name) => {
                proof {
                    reveal_strlit("::");
                }
                Some(after_last_text(name.as_str(), "::"))
            },
            None => None,
        },
    }
}

/// Adds the node of a declaration, and says whether the declaration has a node and which source
/// file owns it.
fn place_token(
    files: &SourceFiles,
    sources: &Table<FileId, String>,
    graph: &mut Graph,
    token: &TokenStaticData,
) -> (placed: (bool, Option<String>))
    requires
        old(graph).well_formed(),
    ensures
        final(graph).well_formed(),
        final(graph).deep_view() == token_placed(
            files.deep_view(),
            sources.deep_view(),
            old(graph).deep_view(),
            token.deep_view(),
        ),
        placed.0 == final(graph).deep_view().owners.contains_key(token.stable_id@),
        placed.1.deep_view() == token_owner(
            files.deep_view(),
            sources.deep_view(),
            old(graph).deep_view().owners,
            token.deep_view(),
        ),
{
    let declared: Option<FileRange> = if token.external {
        None
    } else {
        token.definition
    };
    let external = declared.is_none();
    let declared_in: Option<String> = match declared {
        Some(definition) => Some(source_path(files, definition.file_id)),
        None => None,
    };
    let owner: Option<String> = match graph.owners.get(&token.stable_id) {
        Some(source) => Some(source.clone()),
        None => match &declared_in {
            Some(source) => Some(source.clone()),
            None => find_reference_source(sources, &token.references),
        },
    };
    match (name_of_token(token), &owner) {
        (Some(name), Some(source)) => {
            let node = GraphSnapshotNode {
                id: token.stable_id.clone(),
                kind: graph_node_kind(token.kind).to_owned(),
                name,
                qualified_name: token.qualified_name.duplicate(),
                file: match declared_in {
                    Some(source) => source,
                    None => "bundled:///rust/dependencies".to_owned(),
                },
                external,
                exported: token.exported,
                signature: token.signature.duplicate(),
                evidence: match declared {
                    Some(definition) => evidence(files, definition),
                    None => None,
                },
            };
            graph.claim_if_free(token.stable_id.clone(), source.clone());
            graph.add_node(source, node);
        },
        _ => {},
    }
    (graph.owners.contains(&token.stable_id), owner)
}

/// Adds the nodes of the declarations, and says of each whether it has a node and which source
/// file owns it.
pub fn place_tokens(
    files: &SourceFiles,
    sources: &Table<FileId, String>,
    graph: &mut Graph,
    tokens: &Vec<TokenStaticData>,
) -> (placed: Vec<(bool, Option<String>)>)
    requires
        old(graph).well_formed(),
    ensures
        final(graph).well_formed(),
        final(graph).deep_view() == tokens_placed(
            files.deep_view(),
            sources.deep_view(),
            old(graph).deep_view(),
            tokens.deep_view(),
            tokens.deep_view().len() as int,
        ),
        placed.deep_view() == placements(
            files.deep_view(),
            sources.deep_view(),
            old(graph).deep_view(),
            tokens.deep_view(),
        ),
{
    let ghost start = graph.deep_view();
    let ghost all = tokens.deep_view();
    let mut placed: Vec<(bool, Option<String>)> = Vec::new();
    let mut index: usize = 0;
    while index < tokens.len()
        invariant
            index <= tokens.len(),
            all == tokens.deep_view(),
            placed.len() == index,
            graph.well_formed(),
            graph.deep_view() == tokens_placed(
                files.deep_view(),
                sources.deep_view(),
                start,
                all,
                index as int,
            ),
            forall|i: int|
                0 <= i < index ==> (#[trigger] placed@[i]).deep_view() == placement(
                    files.deep_view(),
                    sources.deep_view(),
                    start,
                    all,
                    i,
                ),
        decreases tokens.len() - index,
    {
        assert(all[index as int] == tokens@[index as int].deep_view());
        let outcome = place_token(files, sources, graph, &tokens[index]);
        placed.push(outcome);
        index += 1;
    }
    assert(placed.deep_view() =~= placements(files.deep_view(), sources.deep_view(), start, all));
    placed
}

/// Whether a declaration has a node once those before it and its own were added, and which source
/// file owns it.
pub open spec fn placement(
    files: Map<FileId, SourceFileModel>,
    sources: Map<FileId, Seq<char>>,
    graph: GraphModel,
    tokens: Seq<TokenStaticDataModel>,
    at: int,
) -> (bool, Option<Seq<char>>) {
    let before = tokens_placed(files, sources, graph, tokens, at);
    (
        token_placed(files, sources, before, tokens[at]).owners.contains_key(tokens[at].stable_id),
        token_owner(files, sources, before.owners, tokens[at]),
    )
}

/// What [`placement`] says of each declaration.
pub open spec fn placements(
    files: Map<FileId, SourceFileModel>,
    sources: Map<FileId, Seq<char>>,
    graph: GraphModel,
    tokens: Seq<TokenStaticDataModel>,
) -> Seq<(bool, Option<Seq<char>>)> {
    Seq::new(tokens.len(), |i: int| placement(files, sources, graph, tokens, i))
}

/// The identity of the node of a source file.
pub open spec fn file_node_id(source: Seq<char>) -> Seq<char> {
    "rust-file-v1|"@ + decimal(encode_utf8(source).len()) + ":"@ + source
}

/// The node of a source file.
pub open spec fn file_node(source: Seq<char>) -> GraphSnapshotNodeModel {
    GraphSnapshotNodeModel {
        id: file_node_id(source),
        kind: "file"@,
        name: after_last(source, "/"@),
        qualified_name: None,
        file: source,
        external: false,
        exported: false,
        signature: None,
        evidence: None,
    }
}

/// Adds the nodes of the first source files.
pub open spec fn files_placed(
    graph: GraphModel,
    listing: Seq<(FileId, Seq<char>)>,
    count: int,
) -> GraphModel
    decreases count,
{
    if count <= 0 {
        graph
    } else {
        let source = listing[count - 1].1;
        with_node(
            claimed(files_placed(graph, listing, count - 1), file_node_id(source), source),
            source,
            file_node(source),
        )
    }
}

/// The identity of the node of a source file.
pub fn file_id_text(source: &String) -> (id: String)
    ensures
        id@ == file_node_id(source@),
{
    let length = source.as_str().as_bytes().len();
    let mut id = "rust-file-v1|".to_owned();
    let digits = decimal_text(length as u64);
    id.append(digits.as_str());
    id.append(":");
    id.append(source.as_str());
    id
}

/// Adds the nodes of the source files.
pub fn place_files(sources: &Table<FileId, String>, graph: &mut Graph)
    requires
        old(graph).well_formed(),
    ensures
        final(graph).well_formed(),
        final(graph).deep_view() == files_placed(
            old(graph).deep_view(),
            ordered::<FileId, Seq<char>>(sources.deep_view()),
            sources.deep_view().len() as int,
        ),
{
    let ghost start = graph.deep_view();
    let ghost listing = ordered::<FileId, Seq<char>>(sources.deep_view());
    let count = sources.len();
    let mut index: usize = 0;
    while index < count
        invariant
            index <= count,
            count == listing.len(),
            listing == ordered::<FileId, Seq<char>>(sources.deep_view()),
            graph.well_formed(),
            graph.deep_view() == files_placed(start, listing, index as int),
        decreases count - index,
    {
        let source = sources.value_at(index);
        let id = file_id_text(source);
        proof {
            reveal_strlit("/");
        }
        let node = GraphSnapshotNode {
            id: id.clone(),
            kind: "file".to_owned(),
            name: after_last_text(source.as_str(), "/"),
            qualified_name: None,
            file: source.clone(),
            external: false,
            exported: false,
            signature: None,
            evidence: None,
        };
        graph.claim(id, source.clone());
        graph.add_node(source, node);
        index += 1;
    }
}

} // verus!
