//! The index of the declarations of a workspace and of the references to them.

use rustc_hash::FxHashMap;
use vstd::prelude::*;

use crate::files::{FileId, FileRange, TextRange};
use crate::moniker::{MonikerResult, MonikerResultModel, SymbolInformationKind};
use crate::order::{Key, Place, pair_before};
use crate::plain::Plain;

verus! {

/// How two declarations are related.
#[derive(Debug, Clone, Copy, PartialEq, Eq, Structural)]
pub enum StaticRelationKind {
    Extends,
    Implements,
    Overrides,
}

impl DeepView for StaticRelationKind {
    type V = StaticRelationKind;

    open spec fn deep_view(&self) -> StaticRelationKind {
        *self
    }
}

impl Plain for StaticRelationKind {
    fn duplicate(&self) -> (copy: Self) {
        *self
    }

    fn same(&self, other: &Self) -> (equal: bool) {
        *self == *other
    }
}

/// What a reference does with the declaration it refers to.
#[derive(Debug, Clone, Copy, PartialEq, Eq, Structural)]
pub enum StaticReferenceRole {
    Access,
    Call,
    Decorate,
    Export,
    Import,
    Instantiate,
    Reference,
    Type,
}

impl DeepView for StaticReferenceRole {
    type V = StaticReferenceRole;

    open spec fn deep_view(&self) -> StaticReferenceRole {
        *self
    }
}

impl Plain for StaticReferenceRole {
    fn duplicate(&self) -> (copy: Self) {
        *self
    }

    fn same(&self, other: &Self) -> (equal: bool) {
        *self == *other
    }
}

/// Kinds of relations are ordered as they are declared.
impl Key for StaticRelationKind {
    open spec fn before(left: StaticRelationKind, right: StaticRelationKind) -> bool {
        match (left, right) {
            (StaticRelationKind::Extends, StaticRelationKind::Implements) => true,
            (StaticRelationKind::Extends, StaticRelationKind::Overrides) => true,
            (StaticRelationKind::Implements, StaticRelationKind::Overrides) => true,
            _ => false,
        }
    }

    proof fn lemma_irreflexive(value: StaticRelationKind) {
    }

    proof fn lemma_transitive(
        first: StaticRelationKind,
        second: StaticRelationKind,
        third: StaticRelationKind,
    ) {
    }

    proof fn lemma_total(left: StaticRelationKind, right: StaticRelationKind) {
    }

    fn place(&self, other: &Self) -> (place: Place) {
        match (*self, *other) {
            (StaticRelationKind::Extends, StaticRelationKind::Extends) => Place::Same,
            (StaticRelationKind::Implements, StaticRelationKind::Implements) => Place::Same,
            (StaticRelationKind::Overrides, StaticRelationKind::Overrides) => Place::Same,
            (StaticRelationKind::Extends, _) => Place::Before,
            (StaticRelationKind::Implements, StaticRelationKind::Overrides) => Place::Before,
            _ => Place::After,
        }
    }
}

/// A relation between two declarations, and what is known of the second one.
#[derive(Debug, Clone, PartialEq, Eq)]
pub struct StaticRelation {
    pub file_id: FileId,
    pub from: String,
    pub to: String,
    pub to_display_name: Option<String>,
    pub to_qualified_name: Option<String>,
    pub to_signature: String,
    pub to_kind: SymbolInformationKind,
    pub to_external: bool,
    pub to_exported: bool,
    pub to_definition_file: Option<FileId>,
    pub kind: StaticRelationKind,
}

/// The content of a [`StaticRelation`].
pub struct StaticRelationModel {
    pub file_id: FileId,
    pub from: Seq<char>,
    pub to: Seq<char>,
    pub to_display_name: Option<Seq<char>>,
    pub to_qualified_name: Option<Seq<char>>,
    pub to_signature: Seq<char>,
    pub to_kind: SymbolInformationKind,
    pub to_external: bool,
    pub to_exported: bool,
    pub to_definition_file: Option<FileId>,
    pub kind: StaticRelationKind,
}

impl DeepView for StaticRelation {
    type V = StaticRelationModel;

    open spec fn deep_view(&self) -> StaticRelationModel {
        StaticRelationModel {
            file_id: self.file_id.deep_view(),
            from: self.from.deep_view(),
            to: self.to.deep_view(),
            to_display_name: self.to_display_name.deep_view(),
            to_qualified_name: self.to_qualified_name.deep_view(),
            to_signature: self.to_signature.deep_view(),
            to_kind: self.to_kind.deep_view(),
            to_external: self.to_external.deep_view(),
            to_exported: self.to_exported.deep_view(),
            to_definition_file: self.to_definition_file.deep_view(),
            kind: self.kind.deep_view(),
        }
    }
}

impl Plain for StaticRelation {
    fn duplicate(&self) -> (copy: Self) {
        StaticRelation {
            file_id: self.file_id.duplicate(),
            from: self.from.duplicate(),
            to: self.to.duplicate(),
            to_display_name: self.to_display_name.duplicate(),
            to_qualified_name: self.to_qualified_name.duplicate(),
            to_signature: self.to_signature.duplicate(),
            to_kind: self.to_kind.duplicate(),
            to_external: self.to_external.duplicate(),
            to_exported: self.to_exported.duplicate(),
            to_definition_file: self.to_definition_file.duplicate(),
            kind: self.kind.duplicate(),
        }
    }

    fn same(&self, other: &Self) -> (equal: bool) {
        self.file_id.same(&other.file_id)
            && self.from.same(&other.from)
            && self.to.same(&other.to)
            && self.to_display_name.same(&other.to_display_name)
            && self.to_qualified_name.same(&other.to_qualified_name)
            && self.to_signature.same(&other.to_signature)
            && self.to_kind.same(&other.to_kind)
            && self.to_external.same(&other.to_external)
            && self.to_exported.same(&other.to_exported)
            && self.to_definition_file.same(&other.to_definition_file)
            && self.kind.same(&other.kind)
    }
}

/// An alias under which a declaration is exported.
#[derive(Debug, Clone, PartialEq, Eq)]
pub struct StaticExportData {
    pub exporter: String,
    pub alias_id: String,
    pub alias: String,
    pub qualified_name: String,
    pub alias_range: FileRange,
}

/// The content of a [`StaticExportData`].
pub struct StaticExportDataModel {
    pub exporter: Seq<char>,
    pub alias_id: Seq<char>,
    pub alias: Seq<char>,
    pub qualified_name: Seq<char>,
    pub alias_range: FileRange,
}

impl DeepView for StaticExportData {
    type V = StaticExportDataModel;

    open spec fn deep_view(&self) -> StaticExportDataModel {
        StaticExportDataModel {
            exporter: self.exporter.deep_view(),
            alias_id: self.alias_id.deep_view(),
            alias: self.alias.deep_view(),
            qualified_name: self.qualified_name.deep_view(),
            alias_range: self.alias_range.deep_view(),
        }
    }
}

impl Plain for StaticExportData {
    fn duplicate(&self) -> (copy: Self) {
        StaticExportData {
            exporter: self.exporter.duplicate(),
            alias_id: self.alias_id.duplicate(),
            alias: self.alias.duplicate(),
            qualified_name: self.qualified_name.duplicate(),
            alias_range: self.alias_range.duplicate(),
        }
    }

    fn same(&self, other: &Self) -> (equal: bool) {
        self.exporter.same(&other.exporter)
            && self.alias_id.same(&other.alias_id)
            && self.alias.same(&other.alias)
            && self.qualified_name.same(&other.qualified_name)
            && self.alias_range.same(&other.alias_range)
    }
}

/// A reference to a declaration.
#[derive(Debug, Clone, PartialEq, Eq)]
pub struct ReferenceData {
    pub range: FileRange,
    pub is_definition: bool,
    pub role: StaticReferenceRole,
    /// The exact use tree, which makes the spelling of imports and exports part of the interface of
    /// a source file.
    pub interface_spelling: Option<String>,
    pub export: Option<StaticExportData>,
}

/// The content of a [`ReferenceData`].
pub struct ReferenceDataModel {
    pub range: FileRange,
    pub is_definition: bool,
    pub role: StaticReferenceRole,
    pub interface_spelling: Option<Seq<char>>,
    pub export: Option<StaticExportDataModel>,
}

impl DeepView for ReferenceData {
    type V = ReferenceDataModel;

    open spec fn deep_view(&self) -> ReferenceDataModel {
        ReferenceDataModel {
            range: self.range.deep_view(),
            is_definition: self.is_definition.deep_view(),
            role: self.role.deep_view(),
            interface_spelling: self.interface_spelling.deep_view(),
            export: self.export.deep_view(),
        }
    }
}

impl Plain for ReferenceData {
    fn duplicate(&self) -> (copy: Self) {
        ReferenceData {
            range: self.range.duplicate(),
            is_definition: self.is_definition.duplicate(),
            role: self.role.duplicate(),
            interface_spelling: self.interface_spelling.duplicate(),
            export: self.export.duplicate(),
        }
    }

    fn same(&self, other: &Self) -> (equal: bool) {
        self.range.same(&other.range)
            && self.is_definition.same(&other.is_definition)
            && self.role.same(&other.role)
            && self.interface_spelling.same(&other.interface_spelling)
            && self.export.same(&other.export)
    }
}

/// A declaration and the references to it.
#[derive(Debug, Clone, PartialEq, Eq)]
pub struct TokenStaticData {
    /// The semantic identity of the declaration. The position of the declaration is no part of it.
    pub stable_id: String,
    pub qualified_name: Option<String>,
    pub exported: bool,
    pub external: bool,
    pub local: bool,
    /// Whether the declaration is an associated item of a trait.
    pub trait_member: bool,
    /// Whether the declaration is a const function, whose body is part of its interface.
    pub const_function: bool,
    pub documentation: Option<String>,
    pub hover: Option<String>,
    /// The position of the name of the declaration.
    pub definition: Option<FileRange>,
    /// The position of the whole declaration without surrounding trivia.
    pub definition_body: Option<FileRange>,
    pub references: Vec<ReferenceData>,
    pub moniker: Option<MonikerResult>,
    pub display_name: Option<String>,
    pub signature: Option<String>,
    pub kind: SymbolInformationKind,
}

/// The content of a [`TokenStaticData`].
pub struct TokenStaticDataModel {
    pub stable_id: Seq<char>,
    pub qualified_name: Option<Seq<char>>,
    pub exported: bool,
    pub external: bool,
    pub local: bool,
    pub trait_member: bool,
    pub const_function: bool,
    pub documentation: Option<Seq<char>>,
    pub hover: Option<Seq<char>>,
    pub definition: Option<FileRange>,
    pub definition_body: Option<FileRange>,
    pub references: Seq<ReferenceDataModel>,
    pub moniker: Option<MonikerResultModel>,
    pub display_name: Option<Seq<char>>,
    pub signature: Option<Seq<char>>,
    pub kind: SymbolInformationKind,
}

impl DeepView for TokenStaticData {
    type V = TokenStaticDataModel;

    open spec fn deep_view(&self) -> TokenStaticDataModel {
        TokenStaticDataModel {
            stable_id: self.stable_id.deep_view(),
            qualified_name: self.qualified_name.deep_view(),
            exported: self.exported.deep_view(),
            external: self.external.deep_view(),
            local: self.local.deep_view(),
            trait_member: self.trait_member.deep_view(),
            const_function: self.const_function.deep_view(),
            documentation: self.documentation.deep_view(),
            hover: self.hover.deep_view(),
            definition: self.definition.deep_view(),
            definition_body: self.definition_body.deep_view(),
            references: self.references.deep_view(),
            moniker: self.moniker.deep_view(),
            display_name: self.display_name.deep_view(),
            signature: self.signature.deep_view(),
            kind: self.kind.deep_view(),
        }
    }
}

impl Plain for TokenStaticData {
    fn duplicate(&self) -> (copy: Self) {
        TokenStaticData {
            stable_id: self.stable_id.duplicate(),
            qualified_name: self.qualified_name.duplicate(),
            exported: self.exported.duplicate(),
            external: self.external.duplicate(),
            local: self.local.duplicate(),
            trait_member: self.trait_member.duplicate(),
            const_function: self.const_function.duplicate(),
            documentation: self.documentation.duplicate(),
            hover: self.hover.duplicate(),
            definition: self.definition.duplicate(),
            definition_body: self.definition_body.duplicate(),
            references: self.references.duplicate(),
            moniker: self.moniker.duplicate(),
            display_name: self.display_name.duplicate(),
            signature: self.signature.duplicate(),
            kind: self.kind.duplicate(),
        }
    }

    fn same(&self, other: &Self) -> (equal: bool) {
        self.stable_id.same(&other.stable_id)
            && self.qualified_name.same(&other.qualified_name)
            && self.exported.same(&other.exported)
            && self.external.same(&other.external)
            && self.local.same(&other.local)
            && self.trait_member.same(&other.trait_member)
            && self.const_function.same(&other.const_function)
            && self.documentation.same(&other.documentation)
            && self.hover.same(&other.hover)
            && self.definition.same(&other.definition)
            && self.definition_body.same(&other.definition_body)
            && self.references.same(&other.references)
            && self.moniker.same(&other.moniker)
            && self.display_name.same(&other.display_name)
            && self.signature.same(&other.signature)
            && self.kind.same(&other.kind)
    }
}

/// A range that an editor can fold.
#[derive(Debug, Clone, PartialEq, Eq)]
pub struct Fold {
    pub range: TextRange,
    pub kind: String,
}

/// The content of a [`Fold`].
pub struct FoldModel {
    pub range: TextRange,
    pub kind: Seq<char>,
}

impl DeepView for Fold {
    type V = FoldModel;

    open spec fn deep_view(&self) -> FoldModel {
        FoldModel {
            range: self.range.deep_view(),
            kind: self.kind.deep_view(),
        }
    }
}

impl Plain for Fold {
    fn duplicate(&self) -> (copy: Self) {
        Fold {
            range: self.range.duplicate(),
            kind: self.kind.duplicate(),
        }
    }

    fn same(&self, other: &Self) -> (equal: bool) {
        self.range.same(&other.range)
            && self.kind.same(&other.kind)
    }
}

/// The number of a declaration in a [`TokenStore`].
#[derive(Debug, Clone, Copy, PartialEq, Eq, Hash, Structural)]
pub struct TokenId(pub usize);

impl DeepView for TokenId {
    type V = TokenId;

    open spec fn deep_view(&self) -> TokenId {
        *self
    }
}

impl Plain for TokenId {
    fn duplicate(&self) -> (copy: Self) {
        *self
    }

    fn same(&self, other: &Self) -> (equal: bool) {
        *self == *other
    }
}

impl TokenId {
    /// The number of the declaration.
    pub fn raw(self) -> (raw: usize)
        ensures
            raw == self.0,
    {
        self.0
    }
}

/// A source file with the declarations that it mentions.
#[derive(Debug, Clone, PartialEq, Eq)]
pub struct StaticIndexedFile {
    pub file_id: FileId,
    pub folds: Vec<Fold>,
    pub tokens: Vec<(TextRange, TokenId)>,
    /// Whether the file takes part in more than one crate or configuration.
    pub conditional_build: bool,
}

/// The content of a [`StaticIndexedFile`].
pub struct StaticIndexedFileModel {
    pub file_id: FileId,
    pub folds: Seq<FoldModel>,
    pub tokens: Seq<(TextRange, TokenId)>,
    pub conditional_build: bool,
}

impl DeepView for StaticIndexedFile {
    type V = StaticIndexedFileModel;

    open spec fn deep_view(&self) -> StaticIndexedFileModel {
        StaticIndexedFileModel {
            file_id: self.file_id.deep_view(),
            folds: self.folds.deep_view(),
            tokens: self.tokens.deep_view(),
            conditional_build: self.conditional_build.deep_view(),
        }
    }
}

impl Plain for StaticIndexedFile {
    fn duplicate(&self) -> (copy: Self) {
        StaticIndexedFile {
            file_id: self.file_id.duplicate(),
            folds: self.folds.duplicate(),
            tokens: self.tokens.duplicate(),
            conditional_build: self.conditional_build.duplicate(),
        }
    }

    fn same(&self, other: &Self) -> (equal: bool) {
        self.file_id.same(&other.file_id)
            && self.folds.same(&other.folds)
            && self.tokens.same(&other.tokens)
            && self.conditional_build.same(&other.conditional_build)
    }
}

/// Relations are ordered by their fields, in the order in which these are declared.
impl Key for StaticRelation {
    open spec fn before(left: StaticRelationModel, right: StaticRelationModel) -> bool {
        pair_before::<RelationEnds, RelationTarget>(relation_parts(left), relation_parts(right))
    }

    proof fn lemma_irreflexive(value: StaticRelationModel) {
        <(RelationEnds, RelationTarget) as Key>::lemma_irreflexive(relation_parts(value));
    }

    proof fn lemma_transitive(
        first: StaticRelationModel,
        second: StaticRelationModel,
        third: StaticRelationModel,
    ) {
        <(RelationEnds, RelationTarget) as Key>::lemma_transitive(
            relation_parts(first),
            relation_parts(second),
            relation_parts(third),
        );
    }

    proof fn lemma_total(left: StaticRelationModel, right: StaticRelationModel) {
        <(RelationEnds, RelationTarget) as Key>::lemma_total(
            relation_parts(left),
            relation_parts(right),
        );
    }

    fn place(&self, other: &Self) -> (place: Place) {
        match self.file_id.place(&other.file_id) {
            Place::Same => match self.from.place(&other.from) {
                Place::Same => match self.to.place(&other.to) {
                    Place::Same => match self.to_display_name.place(&other.to_display_name) {
                        Place::Same => match self.to_qualified_name.place(
                            &other.to_qualified_name,
                        ) {
                            Place::Same => match self.to_signature.place(&other.to_signature) {
                                Place::Same => self.place_target(other),
                                decided => decided,
                            },
                            decided => decided,
                        },
                        decided => decided,
                    },
                    decided => decided,
                },
                decided => decided,
            },
            decided => decided,
        }
    }
}

/// The first fields of a relation, in order.
pub type RelationEnds = (
    (FileId, (String, String)),
    (Option<String>, (Option<String>, String)),
);

/// The last fields of a relation, in order.
pub type RelationTarget = (
    SymbolInformationKind,
    ((bool, bool), (Option<FileId>, StaticRelationKind)),
);

/// The fields of a relation, in order.
pub open spec fn relation_parts(relation: StaticRelationModel) -> (
    ((FileId, (Seq<char>, Seq<char>)), (Option<Seq<char>>, (Option<Seq<char>>, Seq<char>))),
    (SymbolInformationKind, ((bool, bool), (Option<FileId>, StaticRelationKind))),
) {
    (
        (
            (relation.file_id, (relation.from, relation.to)),
            (relation.to_display_name, (relation.to_qualified_name, relation.to_signature)),
        ),
        (
            relation.to_kind,
            (
                (relation.to_external, relation.to_exported),
                (relation.to_definition_file, relation.kind),
            ),
        ),
    )
}

impl StaticRelation {
    fn place_target(&self, other: &Self) -> (place: Place)
        ensures
            match place {
                Place::Before => <RelationTarget as Key>::before(
                    relation_parts(self.deep_view()).1,
                    relation_parts(other.deep_view()).1,
                ),
                Place::Same => relation_parts(self.deep_view()).1 == relation_parts(
                    other.deep_view(),
                ).1,
                Place::After => <RelationTarget as Key>::before(
                    relation_parts(other.deep_view()).1,
                    relation_parts(self.deep_view()).1,
                ),
            },
    {
        match self.to_kind.place(&other.to_kind) {
            Place::Same => match self.to_external.place(&other.to_external) {
                Place::Same => match self.to_exported.place(&other.to_exported) {
                    Place::Same => match self.to_definition_file.place(&other.to_definition_file) {
                        Place::Same => self.kind.place(&other.kind),
                        decided => decided,
                    },
                    decided => decided,
                },
                decided => decided,
            },
            decided => decided,
        }
    }
}

/// The declarations of an index, numbered in the order in which they were found.
#[derive(Debug)]
pub struct TokenStore(Vec<TokenStaticData>);

impl DeepView for TokenStore {
    type V = Seq<TokenStaticDataModel>;

    closed spec fn deep_view(&self) -> Seq<TokenStaticDataModel> {
        self.0.deep_view()
    }
}

impl Default for TokenStore {
    fn default() -> (store: Self)
        ensures
            store.deep_view() == Seq::<TokenStaticDataModel>::empty(),
    {
        let store = TokenStore(Vec::new());
        assert(store.deep_view() =~= Seq::<TokenStaticDataModel>::empty());
        store
    }
}

impl TokenStore {
    /// Adds a declaration and returns its number.
    pub fn insert(&mut self, data: TokenStaticData) -> (id: TokenId)
        ensures
            final(self).deep_view() == old(self).deep_view().push(data.deep_view()),
            id.0 == old(self).deep_view().len(),
    {
        let ghost before = self.deep_view();
        let id = TokenId(self.0.len());
        self.0.push(data);
        assert(self.deep_view() =~= before.push(data.deep_view()));
        id
    }

    /// The declaration with a number, to be changed in place.
    pub fn get_mut(&mut self, id: TokenId) -> (token: Option<&mut TokenStaticData>)
        ensures
            match token {
                Some(token) => {
                    &&& id.0 < old(self).deep_view().len()
                    &&& token.deep_view() == old(self).deep_view()[id.0 as int]
                    &&& final(self).deep_view() == old(self).deep_view().update(
                        id.0 as int,
                        final(token).deep_view(),
                    )
                },
                None => {
                    &&& id.0 >= old(self).deep_view().len()
                    &&& final(self).deep_view() == old(self).deep_view()
                },
            },
    {
        if id.0 < self.0.len() {
            Some(&mut self.0[id.0])
        } else {
            None
        }
    }

    /// The declaration with a number.
    pub fn get(&self, id: TokenId) -> (token: Option<&TokenStaticData>)
        ensures
            match token {
                Some(token) => id.0 < self.deep_view().len() && token.deep_view()
                    == self.deep_view()[id.0 as int],
                None => id.0 >= self.deep_view().len(),
            },
    {
        if id.0 < self.0.len() {
            Some(&self.0[id.0])
        } else {
            None
        }
    }

    /// The declarations in order.
    pub fn data(&self) -> (tokens: &Vec<TokenStaticData>)
        ensures
            tokens.deep_view() == self.deep_view(),
    {
        &self.0
    }

    /// The number of declarations.
    pub fn len(&self) -> (count: usize)
        ensures
            count == self.deep_view().len(),
    {
        self.0.len()
    }

    /// The declarations with their numbers.
    pub fn iter(self) -> (items: Vec<(TokenId, TokenStaticData)>)
        ensures
            items.deep_view() == numbered(self.deep_view()),
    {
        let mut rest = self.0;
        let ghost all = rest.deep_view();
        let mut reversed: Vec<(TokenId, TokenStaticData)> = Vec::new();
        while rest.len() > 0
            invariant
                rest.deep_view() == all.take(rest.len() as int),
                rest.len() + reversed.len() == all.len(),
                forall|i: int|
                    0 <= i < reversed.len() ==> (#[trigger] reversed@[i]).deep_view() == (
                        TokenId((all.len() - 1 - i) as usize),
                        all[all.len() - 1 - i],
                    ),
            decreases rest.len(),
        {
            let ghost before = rest.deep_view();
            match rest.pop() {
                Some(data) => {
                    proof {
                        assert(data.deep_view() == before.last());
                        assert(rest.deep_view() =~= before.drop_last());
                        assert(rest.deep_view() =~= all.take(rest.len() as int));
                    }
                    reversed.push((TokenId(rest.len()), data));
                },
                None => {},
            }
        }
        let mut items: Vec<(TokenId, TokenStaticData)> = Vec::new();
        while reversed.len() > 0
            invariant
                reversed.len() + items.len() == all.len(),
                forall|i: int|
                    0 <= i < reversed.len() ==> (#[trigger] reversed@[i]).deep_view() == (
                        TokenId((all.len() - 1 - i) as usize),
                        all[all.len() - 1 - i],
                    ),
                forall|i: int|
                    0 <= i < items.len() ==> (#[trigger] items@[i]).deep_view() == (
                        TokenId(i as usize),
                        all[i],
                    ),
            decreases reversed.len(),
        {
            match reversed.pop() {
                Some(item) => items.push(item),
                None => {},
            }
        }
        assert(items.deep_view() =~= numbered(all));
        items
    }

    /// The declarations with their numbers, by reference.
    pub fn iter_ref(&self) -> (items: Vec<(TokenId, &TokenStaticData)>)
        ensures
            items.deep_view() == numbered(self.deep_view()),
    {
        let mut items: Vec<(TokenId, &TokenStaticData)> = Vec::new();
        let mut index: usize = 0;
        while index < self.0.len()
            invariant
                index <= self.0.len(),
                items.len() == index,
                forall|i: int|
                    0 <= i < index ==> (#[trigger] items@[i]).deep_view() == (
                        TokenId(i as usize),
                        self.0@[i].deep_view(),
                    ),
            decreases self.0.len() - index,
        {
            items.push((TokenId(index), &self.0[index]));
            index += 1;
        }
        assert(items.deep_view() =~= numbered(self.deep_view()));
        items
    }
}

/// Everything that is known of the declarations of a workspace and the references to them.
#[derive(Debug)]
pub struct StaticIndex {
    pub files: Vec<StaticIndexedFile>,
    pub tokens: TokenStore,
    pub relations: Vec<StaticRelation>,
    /// The numbers of the declarations that were met so far.
    pub def_map: FxHashMap<u64, usize>,
    /// Whether the index is made for a graph.
    pub graph: bool,
}

/// The content of a [`StaticIndex`].
pub struct StaticIndexModel {
    pub files: Seq<StaticIndexedFileModel>,
    pub tokens: Seq<TokenStaticDataModel>,
    pub relations: Seq<StaticRelationModel>,
    pub def_map: Map<u64, usize>,
    pub graph: bool,
}

impl DeepView for StaticIndex {
    type V = StaticIndexModel;

    open spec fn deep_view(&self) -> StaticIndexModel {
        StaticIndexModel {
            files: self.files.deep_view(),
            tokens: self.tokens.deep_view(),
            relations: self.relations.deep_view(),
            def_map: self.def_map@,
            graph: self.graph,
        }
    }
}

/// Declarations with their numbers.
pub open spec fn numbered(tokens: Seq<TokenStaticDataModel>) -> Seq<
    (TokenId, TokenStaticDataModel),
> {
    Seq::new(tokens.len(), |i: int| (TokenId(i as usize), tokens[i]))
}

} // verus!
