//! Interface fingerprints: digests of what other source files can see of a source file.

use vstd::prelude::*;
use vstd::string::*;

use crate::digest::is_digest_text;
use crate::files::{FileId, FileRange, SourceFileModel, SourceFiles, source_of, source_path};
use crate::json::{Json, JsonModel, canonical, canonical_json, digest_json, json_digest};
use crate::moniker::{SymbolInformationKind, kind_name, kind_text};
use crate::nodes::{is_source, reference_kind, reference_kind_name};
use crate::plain::Plain;
use crate::sorting::{stable_sort, stable_sorted};
use crate::static_index::{
    ReferenceDataModel, StaticExportData, StaticExportDataModel, StaticIndex, StaticIndexModel,
    StaticIndexedFile, StaticIndexedFileModel, StaticReferenceRole, StaticRelation,
    StaticRelationKind, StaticRelationModel, TokenStaticData, TokenStaticDataModel,
};
use crate::table::{Table, ordered};
use crate::text::{byte_slice, slice_text};
use crate::wire::{Encoded, field};

verus! {

/// The entries of the interface of each source file.
pub type Entries = Map<Seq<char>, Seq<Seq<char>>>;

/// No entries for each of the source files.
pub open spec fn no_entries(
    files: Map<FileId, SourceFileModel>,
    indexed: Seq<StaticIndexedFileModel>,
) -> Entries {
    Map::new(
        |source: Seq<char>| is_source(files, indexed, source),
        |source: Seq<char>| Seq::<Seq<char>>::empty(),
    )
}

/// Adds an entry to the interface of a source file, where it is among the indexed ones.
pub open spec fn with_entry(entries: Entries, source: Seq<char>, entry: JsonModel) -> Entries {
    if entries.contains_key(source) {
        entries.insert(source, entries[source].push(canonical(entry)))
    } else {
        entries
    }
}

/// Whether the body of a declaration is part of its interface.
pub open spec fn has_semantic_body(token: TokenStaticDataModel) -> bool {
    ||| token.const_function
    ||| token.kind == SymbolInformationKind::Constant
    ||| token.kind == SymbolInformationKind::EnumMember
    ||| token.kind == SymbolInformationKind::Macro
    ||| token.kind == SymbolInformationKind::StaticVariable
}

/// The text of a range of a source file, where it is known.
pub open spec fn text_at(files: Map<FileId, SourceFileModel>, range: FileRange) -> Option<Seq<char>> {
    if files.contains_key(range.file_id) {
        match files[range.file_id].text {
            Some(text) => byte_slice(text, range.range.start as int, range.range.end as int),
            None => None,
        }
    } else {
        None
    }
}

/// The body of a declaration, where it is part of its interface.
pub open spec fn semantic_body(
    files: Map<FileId, SourceFileModel>,
    token: TokenStaticDataModel,
) -> Option<Seq<char>> {
    if has_semantic_body(token) {
        match token.definition_body {
            Some(body) => text_at(files, body),
            None => None,
        }
    } else {
        None
    }
}

/// What a declaration adds to the interface of its source file.
pub open spec fn definition_entry(
    files: Map<FileId, SourceFileModel>,
    token: TokenStaticDataModel,
) -> JsonModel {
    JsonModel::Object(
        seq![
            ("kind"@, JsonModel::Text(kind_name(token.kind))),
            ("id"@, JsonModel::Text(token.stable_id)),
            ("qualifiedName"@, <Option<String>>::encoding(token.qualified_name)),
            ("signature"@, <Option<String>>::encoding(token.signature)),
            ("exported"@, JsonModel::Bool(token.exported)),
            ("semanticBody"@, <Option<String>>::encoding(semantic_body(files, token))),
        ],
    )
}

/// What an alias adds to the entry of the reference that exports it.
pub open spec fn export_entry(export: Option<StaticExportDataModel>) -> JsonModel {
    match export {
        None => JsonModel::Null,
        Some(export) => JsonModel::Object(
            seq![
                ("exporter"@, JsonModel::Text(export.exporter)),
                ("aliasId"@, JsonModel::Text(export.alias_id)),
                ("alias"@, JsonModel::Text(export.alias)),
                ("qualifiedName"@, JsonModel::Text(export.qualified_name)),
            ],
        ),
    }
}

/// What a reference that imports or exports adds to the interface of its source file.
pub open spec fn reference_entry(
    token: TokenStaticDataModel,
    reference: ReferenceDataModel,
) -> JsonModel {
    JsonModel::Object(
        seq![
            ("role"@, JsonModel::Text(reference_kind_name(reference.role))),
            ("target"@, JsonModel::Text(token.stable_id)),
            ("spelling"@, <Option<String>>::encoding(reference.interface_spelling)),
            ("export"@, export_entry(reference.export)),
        ],
    )
}

/// The name of a kind of relation.
pub open spec fn relation_name(kind: StaticRelationKind) -> Seq<char> {
    match kind {
        StaticRelationKind::Extends => "Extends"@,
        StaticRelationKind::Implements => "Implements"@,
        StaticRelationKind::Overrides => "Overrides"@,
    }
}

/// What a relation adds to the interface of its source file.
pub open spec fn relation_entry(relation: StaticRelationModel) -> JsonModel {
    JsonModel::Object(
        seq![
            ("relation"@, JsonModel::Text(relation_name(relation.kind))),
            ("from"@, JsonModel::Text(relation.from)),
            ("to"@, JsonModel::Text(relation.to)),
            ("toDisplayName"@, <Option<String>>::encoding(relation.to_display_name)),
            ("toQualifiedName"@, <Option<String>>::encoding(relation.to_qualified_name)),
            ("toSignature"@, JsonModel::Text(relation.to_signature)),
            ("toKind"@, JsonModel::Text(kind_name(relation.to_kind))),
            ("toExternal"@, JsonModel::Bool(relation.to_external)),
            ("toExported"@, JsonModel::Bool(relation.to_exported)),
        ],
    )
}

/// Whether a reference is part of the interface of its source file.
pub open spec fn is_interface_reference(reference: ReferenceDataModel) -> bool {
    !reference.is_definition && (reference.role == StaticReferenceRole::Export || reference.role
        == StaticReferenceRole::Import)
}

/// Adds the entry of a declaration that is neither local nor external.
pub open spec fn definition_entered(
    files: Map<FileId, SourceFileModel>,
    entries: Entries,
    token: TokenStaticDataModel,
) -> Entries {
    if !token.local && !token.external && token.definition is Some {
        with_entry(
            entries,
            source_of(files, token.definition->0.file_id),
            definition_entry(files, token),
        )
    } else {
        entries
    }
}

/// Adds the entries of the first references to a declaration.
pub open spec fn references_entered(
    files: Map<FileId, SourceFileModel>,
    entries: Entries,
    token: TokenStaticDataModel,
    count: int,
) -> Entries
    decreases count,
{
    if count <= 0 {
        entries
    } else {
        let before = references_entered(files, entries, token, count - 1);
        let reference = token.references[count - 1];
        if is_interface_reference(reference) {
            with_entry(
                before,
                source_of(files, reference.range.file_id),
                reference_entry(token, reference),
            )
        } else {
            before
        }
    }
}

/// Adds the entries of the first declarations and of the references to them.
pub open spec fn tokens_entered(
    files: Map<FileId, SourceFileModel>,
    entries: Entries,
    tokens: Seq<TokenStaticDataModel>,
    count: int,
) -> Entries
    decreases count,
{
    if count <= 0 {
        entries
    } else {
        let token = tokens[count - 1];
        references_entered(
            files,
            definition_entered(files, tokens_entered(files, entries, tokens, count - 1), token),
            token,
            token.references.len() as int,
        )
    }
}

/// Adds the entries of the first relations.
pub open spec fn relations_entered(
    files: Map<FileId, SourceFileModel>,
    entries: Entries,
    relations: Seq<StaticRelationModel>,
    count: int,
) -> Entries
    decreases count,
{
    if count <= 0 {
        entries
    } else {
        with_entry(
            relations_entered(files, entries, relations, count - 1),
            source_of(files, relations[count - 1].file_id),
            relation_entry(relations[count - 1]),
        )
    }
}

/// The fingerprint of an interface: the digest of its entries in order.
pub open spec fn fingerprint_of(entries: Seq<Seq<char>>) -> Seq<char> {
    json_digest(<Vec<String>>::encoding(stable_sorted::<String>(entries)))
}

/// The fingerprint of the interface of each indexed source file.
pub open spec fn interface_fingerprints(
    files: Map<FileId, SourceFileModel>,
    index: StaticIndexModel,
) -> Map<Seq<char>, Seq<char>> {
    relations_entered(
        files,
        tokens_entered(
            files,
            no_entries(files, index.files),
            index.tokens,
            index.tokens.len() as int,
        ),
        index.relations,
        index.relations.len() as int,
    ).map_values(|entries: Seq<Seq<char>>| fingerprint_of(entries))
}

fn relation_text(kind: StaticRelationKind) -> (text: &'static str)
    ensures
        text@ == relation_name(kind),
{
    match kind {
        StaticRelationKind::Extends => "Extends",
        StaticRelationKind::Implements => "Implements",
        StaticRelationKind::Overrides => "Overrides",
    }
}

/// Adds an entry to the interface of a source file, where it is among the indexed ones.
fn add_entry(entries: &mut Table<String, Vec<String>>, source: &String, entry: &Json)
    ensures
        final(entries).deep_view() == with_entry(
            old(entries).deep_view(),
            source@,
            entry.deep_view(),
        ),
{
    if entries.contains(source) {
        let ghost before = entries.deep_view();
        let mut list = entries.exchange(source, Vec::new());
        let text = canonical_json(entry);
        list.push(text);
        assert(list.deep_view() =~= before[source@].push(canonical(entry.deep_view())));
        let _ = entries.exchange(source, list);
        assert(entries.deep_view() =~= with_entry(before, source@, entry.deep_view()));
    }
}

/// Cuts the text of a range out of its source file.
fn cut_text(files: &SourceFiles, range: FileRange) -> (text: Option<String>)
    ensures
        text.deep_view() == text_at(files.deep_view(), range),
{
    match files.get(&range.file_id) {
        Some(file) => match &file.text {
            Some(text) => slice_text(
                text.as_str(),
                range.range.start as usize,
                range.range.end as usize,
            ),
            None => None,
        },
        None => None,
    }
}

/// The body of a declaration, where it is part of its interface.
fn body_text(files: &SourceFiles, token: &TokenStaticData) -> (text: Option<String>)
    ensures
        text.deep_view() == semantic_body(files.deep_view(), token.deep_view()),
{
    if token.const_function || token.kind == SymbolInformationKind::Constant || token.kind
        == SymbolInformationKind::EnumMember || token.kind == SymbolInformationKind::Macro
        || token.kind == SymbolInformationKind::StaticVariable {
        match token.definition_body {
            Some(body) => cut_text(files, body),
            None => None,
        }
    } else {
        None
    }
}

/// Adds the entry of a declaration.
fn enter_definition(
    files: &SourceFiles,
    entries: &mut Table<String, Vec<String>>,
    token: &TokenStaticData,
)
    ensures
        final(entries).deep_view() == definition_entered(
            files.deep_view(),
            old(entries).deep_view(),
            token.deep_view(),
        ),
{
    if token.local || token.external {
        return;
    }
    match token.definition {
        None => {},
        Some(definition) => {
            let source = source_path(files, definition.file_id);
            let fields: Vec<(String, Json)> = vec![
                field("kind", kind_text(token.kind).to_owned().encode()),
                field("id", token.stable_id.encode()),
                field("qualifiedName", token.qualified_name.encode()),
                field("signature", token.signature.encode()),
                field("exported", token.exported.encode()),
                field("semanticBody", body_text(files, token).encode()),
            ];
            let entry = Json::Object(fields);
            assert(entry.deep_view()->Object_0 =~= definition_entry(
                files.deep_view(),
                token.deep_view(),
            )->Object_0);
            add_entry(entries, &source, &entry);
        },
    }
}

/// The entry of an alias.
fn encode_export(export: &Option<StaticExportData>) -> (json: Json)
    ensures
        json.deep_view() == export_entry(export.deep_view()),
{
    match export {
        None => Json::Null,
        Some(export) => {
            let fields: Vec<(String, Json)> = vec![
                field("exporter", export.exporter.encode()),
                field("aliasId", export.alias_id.encode()),
                field("alias", export.alias.encode()),
                field("qualifiedName", export.qualified_name.encode()),
            ];
            let json = Json::Object(fields);
            assert(json.deep_view()->Object_0 =~= export_entry(
                Some(export.deep_view()),
            )->Object_0);
            json
        },
    }
}

/// Adds the entries of the references to a declaration.
fn enter_references(
    files: &SourceFiles,
    entries: &mut Table<String, Vec<String>>,
    token: &TokenStaticData,
)
    ensures
        final(entries).deep_view() == references_entered(
            files.deep_view(),
            old(entries).deep_view(),
            token.deep_view(),
            token.deep_view().references.len() as int,
        ),
{
    let ghost start = entries.deep_view();
    let ghost t = token.deep_view();
    let mut index: usize = 0;
    while index < token.references.len()
        invariant
            index <= token.references.len(),
            t == token.deep_view(),
            entries.deep_view() == references_entered(files.deep_view(), start, t, index as int),
        decreases token.references.len() - index,
    {
        let reference = &token.references[index];
        assert(t.references[index as int] == reference.deep_view());
        if !reference.is_definition && (reference.role == StaticReferenceRole::Export
            || reference.role == StaticReferenceRole::Import) {
            let source = source_path(files, reference.range.file_id);
            let fields: Vec<(String, Json)> = vec![
                field("role", reference_kind(reference.role).to_owned().encode()),
                field("target", token.stable_id.encode()),
                field("spelling", reference.interface_spelling.encode()),
                field("export", encode_export(&reference.export)),
            ];
            let entry = Json::Object(fields);
            assert(entry.deep_view()->Object_0 =~= reference_entry(
                t,
                reference.deep_view(),
            )->Object_0);
            add_entry(entries, &source, &entry);
        }
        index += 1;
    }
}

/// Adds the entry of a relation.
fn enter_relation(
    files: &SourceFiles,
    entries: &mut Table<String, Vec<String>>,
    relation: &StaticRelation,
)
    ensures
        final(entries).deep_view() == with_entry(
            old(entries).deep_view(),
            source_of(files.deep_view(), relation.file_id),
            relation_entry(relation.deep_view()),
        ),
{
    let source = source_path(files, relation.file_id);
    let fields: Vec<(String, Json)> = vec![
        field("relation", relation_text(relation.kind).to_owned().encode()),
        field("from", relation.from.encode()),
        field("to", relation.to.encode()),
        field("toDisplayName", relation.to_display_name.encode()),
        field("toQualifiedName", relation.to_qualified_name.encode()),
        field("toSignature", relation.to_signature.encode()),
        field("toKind", kind_text(relation.to_kind).to_owned().encode()),
        field("toExternal", relation.to_external.encode()),
        field("toExported", relation.to_exported.encode()),
    ];
    let entry = Json::Object(fields);
    assert(entry.deep_view()->Object_0 =~= relation_entry(relation.deep_view())->Object_0);
    add_entry(entries, &source, &entry);
}

/// Starts with no entries for each of the source files.
fn start_entries(files: &SourceFiles, indexed: &Vec<StaticIndexedFile>) -> (entries: Table<
    String,
    Vec<String>,
>)
    ensures
        entries.deep_view() == no_entries(files.deep_view(), indexed.deep_view()),
{
    let ghost f = files.deep_view();
    let ghost all = indexed.deep_view();
    let mut entries: Table<String, Vec<String>> = Table::new();
    let mut index: usize = 0;
    assert(entries.deep_view() =~= no_entries(f, all.take(0)));
    while index < indexed.len()
        invariant
            index <= indexed.len(),
            f == files.deep_view(),
            all == indexed.deep_view(),
            entries.deep_view() == no_entries(f, all.take(index as int)),
        decreases indexed.len() - index,
    {
        let file_id = indexed[index].file_id;
        assert(all[index as int].file_id == file_id);
        let ghost before = all.take(index as int);
        let ghost after = all.take(index + 1);
        let list: Vec<String> = Vec::new();
        assert(list.deep_view() =~= Seq::<Seq<char>>::empty());
        entries.insert(source_path(files, file_id), list);
        proof {
            assert(after[index as int] == all[index as int]);
            assert forall|i: int| 0 <= i < index implies #[trigger] after[i] == before[i] by {}
            assert forall|source: Seq<char>| #[trigger]
                is_source(f, after, source) <==> is_source(f, before, source) || source
                    == source_of(f, file_id) by {
                if is_source(f, before, source) {
                    let i = choose|i: int|
                        0 <= i < before.len() && source_of(f, (#[trigger] before[i]).file_id)
                            == source;
                    assert(source_of(f, after[i].file_id) == source);
                }
                if is_source(f, after, source) {
                    let i = choose|i: int|
                        0 <= i < after.len() && source_of(f, (#[trigger] after[i]).file_id)
                            == source;
                    if i < index {
                        assert(source_of(f, before[i].file_id) == source);
                    }
                }
            }
            assert(entries.deep_view() =~= no_entries(f, after));
        }
        index += 1;
    }
    assert(all.take(index as int) =~= all);
    entries
}

/// Computes the fingerprint of the interface of each indexed source file.
pub fn compute_interface_fingerprints(files: &SourceFiles, index: &StaticIndex) -> (fingerprints: Table<
    String,
    String,
>)
    ensures
        fingerprints.deep_view() == interface_fingerprints(files.deep_view(), index.deep_view()),
        forall|source: Seq<char>| #[trigger]
            fingerprints.deep_view().contains_key(source) ==> is_digest_text(
                fingerprints.deep_view()[source],
            ),
{
    let ghost f = files.deep_view();
    let tokens = index.tokens.data();
    let ghost t = tokens.deep_view();
    let ghost r = index.relations.deep_view();
    let mut entries = start_entries(files, &index.files);
    let ghost start = entries.deep_view();
    let mut at: usize = 0;
    while at < tokens.len()
        invariant
            at <= tokens.len(),
            f == files.deep_view(),
            t == tokens.deep_view(),
            entries.deep_view() == tokens_entered(f, start, t, at as int),
        decreases tokens.len() - at,
    {
        assert(t[at as int] == tokens@[at as int].deep_view());
        enter_definition(files, &mut entries, &tokens[at]);
        enter_references(files, &mut entries, &tokens[at]);
        at += 1;
    }
    let ghost entered = entries.deep_view();
    let mut next: usize = 0;
    while next < index.relations.len()
        invariant
            next <= index.relations.len(),
            f == files.deep_view(),
            r == index.relations.deep_view(),
            entries.deep_view() == relations_entered(f, entered, r, next as int),
        decreases index.relations.len() - next,
    {
        assert(r[next as int] == index.relations@[next as int].deep_view());
        enter_relation(files, &mut entries, &index.relations[next]);
        next += 1;
    }
    digest_entries(entries)
}

/// Takes the digest of each list of entries.
fn digest_entries(entries: Table<String, Vec<String>>) -> (fingerprints: Table<String, String>)
    ensures
        fingerprints.deep_view() == entries.deep_view().map_values(
            |entries: Seq<Seq<char>>| fingerprint_of(entries),
        ),
        forall|source: Seq<char>| #[trigger]
            fingerprints.deep_view().contains_key(source) ==> is_digest_text(
                fingerprints.deep_view()[source],
            ),
{
    let ghost all = entries.deep_view();
    let ghost listing = ordered::<String, Seq<Seq<char>>>(all);
    let count = entries.len();
    let mut fingerprints: Table<String, String> = Table::new();
    let mut index: usize = 0;
    while index < count
        invariant
            index <= count,
            count == listing.len(),
            all == entries.deep_view(),
            listing == ordered::<String, Seq<Seq<char>>>(all),
            crate::table::lists::<String, Seq<Seq<char>>>(listing, all),
            forall|source: Seq<char>| #[trigger]
                fingerprints.deep_view().contains_key(source) <==> exists|i: int|
                    0 <= i < index && (#[trigger] listing[i]).0 == source,
            forall|source: Seq<char>| #[trigger]
                fingerprints.deep_view().contains_key(source) ==> all.contains_key(source)
                    && fingerprints.deep_view()[source] == fingerprint_of(all[source])
                    && is_digest_text(fingerprints.deep_view()[source]),
        decreases count - index,
    {
        let ghost before = fingerprints.deep_view();
        let source = entries.key_at(index);
        let mut list = entries.value_at(index).duplicate();
        stable_sort(&mut list);
        let digest = digest_json(&list.encode());
        assert(all.contains_key(listing[index as int].0));
        fingerprints.insert(source.clone(), digest);
        proof {
            assert forall|source: Seq<char>| #[trigger]
                fingerprints.deep_view().contains_key(source) <==> exists|i: int|
                    0 <= i < index + 1 && (#[trigger] listing[i]).0 == source by {
                assert(before.contains_key(source) <==> exists|i: int|
                    0 <= i < index && (#[trigger] listing[i]).0 == source);
                if source == listing[index as int].0 {
                    assert(fingerprints.deep_view().contains_key(source));
                }
            }
        }
        index += 1;
    }
    assert(fingerprints.deep_view() =~= all.map_values(
        |entries: Seq<Seq<char>>| fingerprint_of(entries),
    ));
    fingerprints
}

/// Whether a dirty source file has another interface than before, or had none.
pub open spec fn has_interface_change(
    cached: Map<Seq<char>, Seq<char>>,
    current: Map<Seq<char>, Seq<char>>,
    dirty: Set<Seq<char>>,
) -> bool {
    exists|source: Seq<char>| #[trigger]
        dirty.contains(source) && (!cached.contains_key(source) || !current.contains_key(source)
            || cached[source] != current[source])
}

/// Whether a dirty source file has another interface than before, or had none.
pub fn interfaces_changed(
    cached: &Table<String, String>,
    current: &Table<String, String>,
    dirty_sources: &Table<String, ()>,
) -> (changed: bool)
    ensures
        changed == has_interface_change(
            cached.deep_view(),
            current.deep_view(),
            dirty_sources.deep_view().dom(),
        ),
{
    let ghost dirty = dirty_sources.deep_view();
    let ghost listing = ordered::<String, ()>(dirty);
    let count = dirty_sources.len();
    let mut index: usize = 0;
    while index < count
        invariant
            index <= count,
            count == listing.len(),
            dirty == dirty_sources.deep_view(),
            listing == ordered::<String, ()>(dirty),
            crate::table::lists::<String, ()>(listing, dirty),
            forall|i: int|
                0 <= i < index ==> cached.deep_view().contains_key((#[trigger] listing[i]).0)
                    && current.deep_view().contains_key(listing[i].0)
                    && cached.deep_view()[listing[i].0] == current.deep_view()[listing[i].0],
        decreases count - index,
    {
        let source = dirty_sources.key_at(index);
        assert(dirty.dom().contains(listing[index as int].0));
        match (cached.get(source), current.get(source)) {
            (Some(before), Some(after)) => {
                if !before.same(after) {
                    return true;
                }
            },
            _ => {
                return true;
            },
        }
        index += 1;
    }
    proof {
        assert forall|source: Seq<char>| #[trigger] dirty.dom().contains(source) implies !(
        !cached.deep_view().contains_key(source) || !current.deep_view().contains_key(source)
            || cached.deep_view()[source] != current.deep_view()[source]) by {
            assert(dirty.contains_key(source));
            let i = choose|i: int| 0 <= i < listing.len() && (#[trigger] listing[i]).0 == source;
        }
    }
    false
}

/// Whether interfaces changed depends on nothing but the dirty source files.
pub proof fn law_changes_are_limited_to_dirty(
    cached: Map<Seq<char>, Seq<char>>,
    current: Map<Seq<char>, Seq<char>>,
    other_cached: Map<Seq<char>, Seq<char>>,
    other_current: Map<Seq<char>, Seq<char>>,
    dirty: Set<Seq<char>>,
)
    requires
        forall|source: Seq<char>| #[trigger]
            dirty.contains(source) ==> {
                &&& cached.contains_key(source) == other_cached.contains_key(source)
                &&& current.contains_key(source) == other_current.contains_key(source)
                &&& cached[source] == other_cached[source]
                &&& current[source] == other_current[source]
            },
    ensures
        has_interface_change(cached, current, dirty) == has_interface_change(
            other_cached,
            other_current,
            dirty,
        ),
{
}

/// Whether two references look the same to other files: both or neither are part of an interface,
/// and if they are, of that of the same source file and under the same names.
pub open spec fn same_reference(
    left_files: Map<FileId, SourceFileModel>,
    left: ReferenceDataModel,
    right_files: Map<FileId, SourceFileModel>,
    right: ReferenceDataModel,
) -> bool {
    &&& is_interface_reference(left) == is_interface_reference(right)
    &&& is_interface_reference(left) ==> {
        &&& source_of(left_files, left.range.file_id) == source_of(
            right_files,
            right.range.file_id,
        )
        &&& left.role == right.role
        &&& left.interface_spelling == right.interface_spelling
        &&& export_entry(left.export) == export_entry(right.export)
    }
}

/// Whether two declarations look the same to other files, wherever they stand in their own one and
/// whatever their bodies hold, where these are not part of an interface.
pub open spec fn same_interface(
    left_files: Map<FileId, SourceFileModel>,
    left: TokenStaticDataModel,
    right_files: Map<FileId, SourceFileModel>,
    right: TokenStaticDataModel,
) -> bool {
    &&& left.stable_id == right.stable_id
    &&& left.local == right.local
    &&& left.external == right.external
    &&& left.definition is Some == right.definition is Some
    &&& left.definition is Some ==> source_of(left_files, left.definition->0.file_id) == source_of(
        right_files,
        right.definition->0.file_id,
    )
    &&& left.kind == right.kind
    &&& left.qualified_name == right.qualified_name
    &&& left.signature == right.signature
    &&& left.exported == right.exported
    &&& semantic_body(left_files, left) == semantic_body(right_files, right)
    &&& left.references.len() == right.references.len()
    &&& forall|i: int|
        0 <= i < left.references.len() ==> same_reference(
            left_files,
            #[trigger] left.references[i],
            right_files,
            right.references[i],
        )
}

proof fn lemma_references_alike(
    left_files: Map<FileId, SourceFileModel>,
    left: TokenStaticDataModel,
    right_files: Map<FileId, SourceFileModel>,
    right: TokenStaticDataModel,
    entries: Entries,
    count: int,
)
    requires
        same_interface(left_files, left, right_files, right),
        count <= left.references.len(),
    ensures
        references_entered(left_files, entries, left, count) == references_entered(
            right_files,
            entries,
            right,
            count,
        ),
    decreases count,
{
    if count > 0 {
        lemma_references_alike(left_files, left, right_files, right, entries, count - 1);
        assert(same_reference(
            left_files,
            left.references[count - 1],
            right_files,
            right.references[count - 1],
        ));
    }
}

proof fn lemma_tokens_alike(
    left_files: Map<FileId, SourceFileModel>,
    left: Seq<TokenStaticDataModel>,
    right_files: Map<FileId, SourceFileModel>,
    right: Seq<TokenStaticDataModel>,
    entries: Entries,
    count: int,
)
    requires
        count <= left.len(),
        left.len() == right.len(),
        forall|i: int|
            0 <= i < left.len() ==> same_interface(
                left_files,
                #[trigger] left[i],
                right_files,
                right[i],
            ),
    ensures
        tokens_entered(left_files, entries, left, count) == tokens_entered(
            right_files,
            entries,
            right,
            count,
        ),
    decreases count,
{
    if count > 0 {
        lemma_tokens_alike(left_files, left, right_files, right, entries, count - 1);
        let l = left[count - 1];
        let r = right[count - 1];
        assert(same_interface(left_files, l, right_files, r));
        let before = definition_entered(
            left_files,
            tokens_entered(left_files, entries, left, count - 1),
            l,
        );
        assert(before == definition_entered(
            right_files,
            tokens_entered(right_files, entries, right, count - 1),
            r,
        ));
        lemma_references_alike(
            left_files,
            l,
            right_files,
            r,
            before,
            l.references.len() as int,
        );
    }
}

/// Fingerprints do not depend on where declarations stand, nor on bodies that are not part of an
/// interface: indexes of the same files that look the same from outside have the same ones.
pub proof fn law_fingerprints_ignore_bodies(
    left_files: Map<FileId, SourceFileModel>,
    left: StaticIndexModel,
    right_files: Map<FileId, SourceFileModel>,
    right: StaticIndexModel,
)
    requires
        left.files.len() == right.files.len(),
        forall|i: int|
            0 <= i < left.files.len() ==> source_of(
                left_files,
                (#[trigger] left.files[i]).file_id,
            ) == source_of(right_files, right.files[i].file_id),
        left.tokens.len() == right.tokens.len(),
        forall|i: int|
            0 <= i < left.tokens.len() ==> same_interface(
                left_files,
                #[trigger] left.tokens[i],
                right_files,
                right.tokens[i],
            ),
        left.relations == right.relations,
        forall|i: int|
            0 <= i < left.relations.len() ==> source_of(
                left_files,
                (#[trigger] left.relations[i]).file_id,
            ) == source_of(right_files, left.relations[i].file_id),
    ensures
        interface_fingerprints(left_files, left) == interface_fingerprints(right_files, right),
{
    assert forall|source: Seq<char>| #[trigger] is_source(left_files, left.files, source)
        == is_source(right_files, right.files, source) by {
        if is_source(left_files, left.files, source) {
            let i = choose|i: int|
                0 <= i < left.files.len() && source_of(
                    left_files,
                    (#[trigger] left.files[i]).file_id,
                ) == source;
            assert(source_of(right_files, right.files[i].file_id) == source);
        }
        if is_source(right_files, right.files, source) {
            let i = choose|i: int|
                0 <= i < right.files.len() && source_of(
                    right_files,
                    (#[trigger] right.files[i]).file_id,
                ) == source;
            assert(source_of(left_files, left.files[i].file_id) == source);
        }
    }
    assert(no_entries(left_files, left.files) =~= no_entries(right_files, right.files));
    let none = no_entries(left_files, left.files);
    lemma_tokens_alike(
        left_files,
        left.tokens,
        right_files,
        right.tokens,
        none,
        left.tokens.len() as int,
    );
    let entries = tokens_entered(left_files, none, left.tokens, left.tokens.len() as int);
    lemma_relations_alike(
        left_files,
        right_files,
        entries,
        left.relations,
        left.relations.len() as int,
    );
}

proof fn lemma_relations_alike(
    left_files: Map<FileId, SourceFileModel>,
    right_files: Map<FileId, SourceFileModel>,
    entries: Entries,
    relations: Seq<StaticRelationModel>,
    count: int,
)
    requires
        count <= relations.len(),
        forall|i: int|
            0 <= i < relations.len() ==> source_of(
                left_files,
                (#[trigger] relations[i]).file_id,
            ) == source_of(right_files, relations[i].file_id),
    ensures
        relations_entered(left_files, entries, relations, count) == relations_entered(
            right_files,
            entries,
            relations,
            count,
        ),
    decreases count,
{
    if count > 0 {
        lemma_relations_alike(left_files, right_files, entries, relations, count - 1);
        assert(source_of(left_files, relations[count - 1].file_id) == source_of(
            right_files,
            relations[count - 1].file_id,
        ));
    }
}

} // verus!
