//! Building an index of declarations and references from what is known of source files.

use rustc_hash::FxHashSet;
use vstd::prelude::*;
use vstd::string::*;

use crate::exports::{
    FileCrate, ModuleScope, Visibility, export_data, export_of, full_name, is_effectively_exported,
    is_visible, moniker_for, named_by, qualified_name,
};
use crate::files::{FileId, FileRange, TextRange};
use crate::fx::{map_get, map_insert, map_new, set_insert, set_new};
use crate::identity::{
    Container, Declaration, context_digest, crate_context_digest_for_crate, identity_of,
    stable_definition_id,
};
use crate::modules::{
    ModuleTree, VendoredLibrariesConfig, all_modules, collect_indexed, indexed_files,
    list_source_files, source_files, visited,
};
use crate::moniker::MonikerResult;
use crate::order::{Key, Place};
use crate::plain::Plain;
use crate::relations::{referred, semantic_relations, sorted_relations};
use crate::roles::{
    Ancestor, Covering, NodeKind, definition_range_excluding_trivia, reference_role, role_from,
    trimmed,
};
use crate::static_index::{
    Fold, ReferenceData, ReferenceDataModel, StaticIndex, StaticIndexModel, StaticIndexedFile,
    StaticIndexedFileModel, StaticReferenceRole, StaticRelationModel, TokenId, TokenStaticData,
    TokenStaticDataModel, TokenStore,
};

verus! {

/// Where a declaration stands.
#[derive(Debug)]
pub struct NavigationTarget {
    pub file_id: FileId,
    /// The range of the name of the declaration, where it has one.
    pub focus_range: Option<TextRange>,
    pub full_range: TextRange,
    /// Whether the file belongs to a library.
    pub library: bool,
    /// The range of the whole file.
    pub root: TextRange,
    /// The syntax that covers the declaration.
    pub covering: Covering,
}

impl NavigationTarget {
    /// The range of the name, or else of the whole declaration.
    pub open spec fn focus(self) -> TextRange {
        match self.focus_range {
            Some(range) => range,
            None => self.full_range,
        }
    }

    /// The range of the name, or else of the whole declaration.
    pub fn focus_or_full_range(&self) -> (range: TextRange)
        ensures
            range == self.focus(),
    {
        match self.focus_range {
            Some(range) => range,
            None => self.full_range,
        }
    }
}

/// What is known of a declaration that a token refers to.
#[derive(Debug)]
pub struct DefinitionFacts {
    /// The number that stands for the declaration.
    pub handle: u64,
    pub declaration: Declaration,
    /// The name of the declaration across packages, as each crate of the file gives it.
    pub monikers: Vec<Option<MonikerResult>>,
    pub nav: Option<NavigationTarget>,
    pub visibility: Visibility,
    /// Whether the declaration is a const function.
    pub const_function: bool,
    /// Whether the declaration is a type of the language itself.
    pub builtin_type: bool,
    pub docs: Option<String>,
    pub hover: String,
    pub display_name: Option<String>,
    pub signature: String,
}

/// A place in a file from which declarations are referred to.
#[derive(Debug)]
pub struct Site {
    pub range: TextRange,
    /// The nodes around the place, from the inside out.
    pub ancestors: Vec<Ancestor>,
    /// The module that the place is in, where that is known.
    pub scope: Option<ModuleScope>,
}

/// A token, as it stands in the expansion of a macro or in the file itself.
#[derive(Debug)]
pub struct ExpandedToken {
    pub range: TextRange,
    pub ancestors: Vec<Ancestor>,
    /// The declarations that the token refers to.
    pub definitions: Vec<DefinitionFacts>,
}

/// A token of a file.
#[derive(Debug)]
pub struct TokenFacts {
    pub site: Site,
    pub expansions: Vec<ExpandedToken>,
}

/// What is known of a source file.
#[derive(Debug)]
pub struct FileFacts {
    pub file_id: FileId,
    /// The crates that the file belongs to.
    pub crates: Vec<FileCrate>,
    /// Whether the file has a crate to show names for.
    pub displayed: bool,
    pub folds: Vec<Fold>,
    /// The file as a whole.
    pub root: Site,
    /// The module that the file is.
    pub module: Option<DefinitionFacts>,
    pub tokens: Vec<TokenFacts>,
}

/// What is known of a workspace.
#[derive(Debug)]
pub struct Analysis {
    /// The root modules of the crates, with the modules inside them.
    pub roots: Vec<ModuleTree>,
    pub files: Vec<FileFacts>,
}

/// The documentation of a declaration. That of a type of the language is known only where a module
/// is, and there is none for a declaration without a crate.
pub open spec fn docs_of(definition: DefinitionFacts, in_scope: bool) -> Option<Seq<char>> {
    if (definition.builtin_type && !in_scope) || definition.declaration.krate is None {
        None
    } else {
        definition.docs.deep_view()
    }
}

/// The documentation of a declaration.
pub fn documentation_for_definition(definition: &DefinitionFacts, in_scope: bool) -> (docs: Option<
    String,
>)
    ensures
        docs.deep_view() == docs_of(*definition, in_scope),
{
    if definition.builtin_type && !in_scope {
        return None;
    }
    if definition.declaration.krate.is_none() {
        return None;
    }
    definition.docs.duplicate()
}

/// The first expansion, from a position on, in which a token refers to anything.
pub open spec fn first_classified(expansions: Seq<ExpandedToken>, from: int) -> Option<int>
    decreases expansions.len() - from,
{
    if from < 0 || from >= expansions.len() {
        None
    } else if expansions[from].definitions@.len() > 0 {
        Some(from)
    } else {
        first_classified(expansions, from + 1)
    }
}

/// What an expanded token does with a declaration. Only a graph tells this.
pub open spec fn role_in(graph: bool, token: ExpandedToken, definition: DefinitionFacts) -> StaticReferenceRole {
    if graph {
        role_from(definition.declaration.kind, token.ancestors@, token.range, 0)
    } else {
        StaticReferenceRole::Reference
    }
}

/// The declarations that a token refers to, and what it does with them.
pub open spec fn uses_of(token: TokenFacts, graph: bool) -> Seq<
    (DefinitionFacts, StaticReferenceRole),
> {
    match first_classified(token.expansions@, 0) {
        Some(at) => {
            let expanded = token.expansions@[at];
            Seq::new(
                expanded.definitions@.len(),
                |i: int|
                    (expanded.definitions@[i], role_in(graph, expanded, expanded.definitions@[i])),
            )
        },
        None => Seq::empty(),
    }
}

/// The pairs that a list with references stands for.
pub open spec fn referred_uses(uses: Seq<(&DefinitionFacts, StaticReferenceRole)>) -> Seq<
    (DefinitionFacts, StaticReferenceRole),
> {
    Seq::new(uses.len(), |i: int| (*uses[i].0, uses[i].1))
}

/// The declarations that a token refers to, and what it does with them.
pub fn get_definitions(token: &TokenFacts, graph: bool) -> (uses: Option<
    Vec<(&DefinitionFacts, StaticReferenceRole)>,
>)
    ensures
        match uses {
            Some(uses) => uses@.len() > 0 && referred_uses(uses@) == uses_of(*token, graph),
            None => uses_of(*token, graph) == Seq::<(DefinitionFacts, StaticReferenceRole)>::empty(),
        },
{
    let mut index: usize = 0;
    while index < token.expansions.len()
        invariant
            index <= token.expansions.len(),
            first_classified(token.expansions@, 0) == first_classified(
                token.expansions@,
                index as int,
            ),
        decreases token.expansions.len() - index,
    {
        let expanded = &token.expansions[index];
        if expanded.definitions.len() > 0 {
            let mut uses: Vec<(&DefinitionFacts, StaticReferenceRole)> = Vec::new();
            let mut next: usize = 0;
            while next < expanded.definitions.len()
                invariant
                    next <= expanded.definitions.len(),
                    uses.len() == next,
                    forall|i: int|
                        0 <= i < next ==> *(#[trigger] uses@[i]).0 == expanded.definitions@[i]
                            && uses@[i].1 == role_in(graph, *expanded, expanded.definitions@[i]),
                decreases expanded.definitions.len() - next,
            {
                let definition = &expanded.definitions[next];
                let role = if graph {
                    reference_role(
                        definition.declaration.kind,
                        &expanded.ancestors,
                        expanded.range,
                    )
                } else {
                    StaticReferenceRole::Reference
                };
                uses.push((definition, role));
                next += 1;
            }
            assert(referred_uses(uses@) =~= uses_of(*token, graph));
            return Some(uses);
        }
        index += 1;
    }
    None
}

/// The first of the first crates whose context has the least digest.
pub open spec fn least_crate(crates: Seq<FileCrate>, count: int) -> Option<int>
    decreases count,
{
    if count <= 0 {
        None
    } else {
        match least_crate(crates, count - 1) {
            Some(best) => if <String as Key>::before(
                context_digest(crates[count - 1].facts),
                context_digest(crates[best].facts),
            ) {
                Some(count - 1)
            } else {
                Some(best)
            },
            None => Some(count - 1),
        }
    }
}

/// The crate for which a file is indexed. A graph takes one that does not depend on the order of
/// the crates.
pub open spec fn crate_for(crates: Seq<FileCrate>, graph: bool) -> Option<int> {
    if graph {
        least_crate(crates, crates.len() as int)
    } else if crates.len() > 0 {
        Some(crates.len() - 1)
    } else {
        None
    }
}

fn choose_crate(crates: &Vec<FileCrate>, graph: bool) -> (chosen: Option<usize>)
    ensures
        match chosen {
            Some(at) => at < crates.len() && crate_for(crates@, graph) == Some(at as int),
            None => crate_for(crates@, graph) is None,
        },
{
    if !graph {
        return if crates.len() > 0 {
            Some(crates.len() - 1)
        } else {
            None
        };
    }
    let mut best: Option<(usize, String)> = None;
    let mut index: usize = 0;
    while index < crates.len()
        invariant
            index <= crates.len(),
            match best {
                Some((at, digest)) => at < index && least_crate(crates@, index as int) == Some(
                    at as int,
                ) && digest@ == context_digest(crates@[at as int].facts),
                None => index == 0,
            },
        decreases crates.len() - index,
    {
        let digest = crate_context_digest_for_crate(&crates[index].facts);
        match &best {
            Some((_, least)) => {
                if digest.place(least) == Place::Before {
                    best = Some((index, digest));
                } else {
                    proof {
                        if <String as Key>::before(digest@, least@) {
                            <String as Key>::lemma_transitive(digest@, least@, digest@);
                            <String as Key>::lemma_irreflexive(digest@);
                        }
                    }
                }
            },
            None => {
                best = Some((index, digest));
            },
        }
        index += 1;
    }
    match best {
        Some((at, _)) => Some(at),
        None => None,
    }
}

/// What the index tells of a declaration when it is first met.
pub open spec fn described(
    definition: DefinitionFacts,
    graph: bool,
    krate: Option<int>,
    in_scope: bool,
) -> TokenStaticDataModel {
    let moniker = named_by(definition.monikers@, krate);
    TokenStaticDataModel {
        stable_id: if graph {
            identity_of(definition.declaration, moniker)
        } else {
            Seq::empty()
        },
        qualified_name: if graph {
            full_name(moniker, definition.display_name.deep_view())
        } else {
            None
        },
        exported: graph && is_visible(definition.visibility),
        external: graph && match definition.nav {
            Some(nav) => nav.library,
            None => false,
        },
        local: graph && (moniker matches Some(MonikerResult::Local { .. })),
        trait_member: graph && (definition.declaration.container matches Some(Container::Trait(_))),
        const_function: graph && definition.const_function,
        documentation: docs_of(definition, in_scope),
        hover: Some(definition.hover@),
        definition: match definition.nav {
            Some(nav) => Some(FileRange { file_id: nav.file_id, range: nav.focus() }),
            None => None,
        },
        definition_body: match definition.nav {
            Some(nav) => Some(
                FileRange {
                    file_id: nav.file_id,
                    range: trimmed(nav.root, nav.full_range, nav.covering),
                },
            ),
            None => None,
        },
        references: Seq::empty(),
        moniker: moniker.deep_view(),
        display_name: definition.display_name.deep_view(),
        signature: Some(definition.signature@),
        kind: definition.declaration.kind,
    }
}

/// The number of an optional position.
pub open spec fn position(at: Option<usize>) -> Option<int> {
    match at {
        Some(at) => Some(at as int),
        None => None,
    }
}

fn describe(
    definition: &DefinitionFacts,
    graph: bool,
    krate: Option<usize>,
    in_scope: bool,
) -> (data: TokenStaticData)
    ensures
        data.deep_view() == described(*definition, graph, position(krate), in_scope),
{
    let moniker = moniker_for(&definition.monikers, krate);
    let local = match moniker {
        Some(MonikerResult::Local { .. }) => true,
        _ => false,
    };
    let stable_id = if graph {
        stable_definition_id(&definition.declaration, moniker)
    } else {
        let empty = String::new();
        assert(empty@ =~= Seq::<char>::empty());
        empty
    };
    let references: Vec<ReferenceData> = Vec::new();
    assert(references.deep_view() =~= Seq::<ReferenceDataModel>::empty());
    let external = match &definition.nav {
        Some(nav) => nav.library,
        None => false,
    };
    let trait_member = match &definition.declaration.container {
        Some(Container::Trait(_)) => true,
        _ => false,
    };
    TokenStaticData {
        stable_id,
        qualified_name: if graph {
            qualified_name(moniker, &definition.display_name)
        } else {
            None
        },
        exported: graph && is_effectively_exported(&definition.visibility),
        external: graph && external,
        local: graph && local,
        trait_member: graph && trait_member,
        const_function: graph && definition.const_function,
        documentation: documentation_for_definition(definition, in_scope),
        hover: Some(definition.hover.clone()),
        definition: match &definition.nav {
            Some(nav) => Some(
                FileRange { file_id: nav.file_id, range: nav.focus_or_full_range() },
            ),
            None => None,
        },
        definition_body: match &definition.nav {
            Some(nav) => Some(
                FileRange {
                    file_id: nav.file_id,
                    range: definition_range_excluding_trivia(
                        nav.root,
                        nav.full_range,
                        &nav.covering,
                    ),
                },
            ),
            None => None,
        },
        references,
        moniker: moniker.duplicate(),
        display_name: definition.display_name.duplicate(),
        signature: Some(definition.signature.clone()),
        kind: definition.declaration.kind,
    }
}

/// The text of the innermost use tree from a position on.
pub open spec fn use_text_from(ancestors: Seq<Ancestor>, from: int) -> Option<Seq<char>>
    decreases ancestors.len() - from,
{
    if from < 0 || from >= ancestors.len() {
        None
    } else if ancestors[from].kind == NodeKind::UseTree {
        Some(ancestors[from].text@)
    } else {
        use_text_from(ancestors, from + 1)
    }
}

fn find_use_text(ancestors: &Vec<Ancestor>) -> (text: Option<String>)
    ensures
        text.deep_view() == use_text_from(ancestors@, 0),
{
    let mut index: usize = 0;
    while index < ancestors.len()
        invariant
            index <= ancestors.len(),
            use_text_from(ancestors@, 0) == use_text_from(ancestors@, index as int),
        decreases ancestors.len() - index,
    {
        if ancestors[index].kind == NodeKind::UseTree {
            return Some(ancestors[index].text.clone());
        }
        index += 1;
    }
    None
}

/// A reference to a declaration, whose identity is given. Only a graph tells the spelling of
/// imports and exports, and what is exported.
pub open spec fn reference_to(
    file: FileFacts,
    site: Site,
    definition: DefinitionFacts,
    role: StaticReferenceRole,
    graph: bool,
    stable_id: Seq<char>,
) -> ReferenceDataModel {
    let at = FileRange { file_id: file.file_id, range: site.range };
    ReferenceDataModel {
        range: at,
        is_definition: match definition.nav {
            Some(nav) => nav.file_id == file.file_id && nav.focus() == site.range,
            None => false,
        },
        role,
        interface_spelling: if graph && (role == StaticReferenceRole::Export || role
            == StaticReferenceRole::Import) {
            use_text_from(site.ancestors@, 0)
        } else {
            None
        },
        export: if graph && role == StaticReferenceRole::Export {
            export_of(
                file.crates@,
                crate_for(file.crates@, graph),
                site.scope,
                definition.declaration.name.deep_view(),
                stable_id,
                at,
                site.ancestors@,
            )
        } else {
            None
        },
    }
}

fn refer(
    file: &FileFacts,
    krate: Option<usize>,
    site: &Site,
    definition: &DefinitionFacts,
    role: StaticReferenceRole,
    graph: bool,
    stable_id: &str,
) -> (reference: ReferenceData)
    requires
        position(krate) == crate_for(file.crates@, graph),
    ensures
        reference.deep_view() == reference_to(*file, *site, *definition, role, graph, stable_id@),
{
    let at = FileRange { file_id: file.file_id, range: site.range };
    let export = if graph && role == StaticReferenceRole::Export {
        export_data(
            &file.crates,
            krate,
            &site.scope,
            &definition.declaration.name,
            stable_id,
            at,
            &site.ancestors,
        )
    } else {
        None
    };
    let interface_spelling = if graph && (role == StaticReferenceRole::Export || role
        == StaticReferenceRole::Import) {
        find_use_text(&site.ancestors)
    } else {
        None
    };
    ReferenceData {
        range: at,
        is_definition: match &definition.nav {
            Some(nav) => nav.file_id == file.file_id && nav.focus_or_full_range() == site.range,
            None => false,
        },
        role,
        interface_spelling,
        export,
    }
}

/// What is known while a file is indexed.
pub struct Progress {
    pub tokens: Seq<TokenStaticDataModel>,
    pub def_map: Map<u64, usize>,
    /// The places of the file, with the declarations that they refer to.
    pub placed: Seq<(TextRange, TokenId)>,
}

/// A declaration with one more reference.
pub open spec fn with_reference(
    token: TokenStaticDataModel,
    reference: ReferenceDataModel,
) -> TokenStaticDataModel {
    TokenStaticDataModel { references: token.references.push(reference), ..token }
}

/// A declaration that is met gets a number, unless it has one.
pub open spec fn met(
    progress: Progress,
    file: FileFacts,
    site: Site,
    definition: DefinitionFacts,
    graph: bool,
) -> Progress {
    if progress.def_map.contains_key(definition.handle) {
        progress
    } else {
        Progress {
            tokens: progress.tokens.push(
                described(
                    definition,
                    graph,
                    crate_for(file.crates@, graph),
                    site.scope is Some,
                ),
            ),
            def_map: progress.def_map.insert(definition.handle, progress.tokens.len() as usize),
            placed: progress.placed,
        }
    }
}

/// What is known after a place that refers to a declaration.
pub open spec fn with_use(
    progress: Progress,
    file: FileFacts,
    site: Site,
    definition: DefinitionFacts,
    role: StaticReferenceRole,
    graph: bool,
) -> Progress {
    let known = met(progress, file, site, definition, graph);
    let number = known.def_map[definition.handle];
    let token = known.tokens[number as int];
    Progress {
        tokens: known.tokens.update(
            number as int,
            with_reference(
                token,
                reference_to(file, site, definition, role, graph, token.stable_id),
            ),
        ),
        def_map: known.def_map,
        placed: known.placed.push((site.range, TokenId(number))),
    }
}

/// What is known after the first declarations that a token refers to.
pub open spec fn with_uses(
    progress: Progress,
    file: FileFacts,
    token: TokenFacts,
    graph: bool,
    count: int,
) -> Progress
    decreases count,
{
    if count <= 0 {
        progress
    } else {
        let (definition, role) = uses_of(token, graph)[count - 1];
        with_use(
            with_uses(progress, file, token, graph, count - 1),
            file,
            token.site,
            definition,
            role,
            graph,
        )
    }
}

/// What is known after the first tokens of a file.
pub open spec fn with_tokens(progress: Progress, file: FileFacts, graph: bool, count: int) -> Progress
    decreases count,
{
    if count <= 0 {
        progress
    } else {
        let token = file.tokens@[count - 1];
        with_uses(
            with_tokens(progress, file, graph, count - 1),
            file,
            token,
            graph,
            uses_of(token, graph).len() as int,
        )
    }
}

/// What is known after the module that a file is.
pub open spec fn with_module(progress: Progress, file: FileFacts, graph: bool) -> Progress {
    match file.module {
        Some(module) => with_use(
            progress,
            file,
            file.root,
            module,
            StaticReferenceRole::Reference,
            graph,
        ),
        None => progress,
    }
}

/// An index with one more file. A file without a crate to show names for is left out.
pub open spec fn with_file(index: StaticIndexModel, file: FileFacts) -> StaticIndexModel {
    if !file.displayed {
        index
    } else {
        let start = Progress {
            tokens: index.tokens,
            def_map: index.def_map,
            placed: Seq::empty(),
        };
        let done = with_tokens(
            with_module(start, file, index.graph),
            file,
            index.graph,
            file.tokens@.len() as int,
        );
        StaticIndexModel {
            files: index.files.push(
                StaticIndexedFileModel {
                    file_id: file.file_id,
                    folds: file.folds.deep_view(),
                    tokens: done.placed,
                    conditional_build: index.graph && file.crates@.len() > 1,
                },
            ),
            tokens: done.tokens,
            def_map: done.def_map,
            ..index
        }
    }
}

/// Whether every known number is that of a declaration.
pub open spec fn is_numbered(tokens: Seq<TokenStaticDataModel>, def_map: Map<u64, usize>) -> bool {
    forall|handle: u64| #[trigger]
        def_map.contains_key(handle) ==> def_map[handle] < tokens.len()
}

/// Whether a declaration has a reference at a place.
pub open spec fn is_referred_at(token: TokenStaticDataModel, at: FileRange) -> bool {
    exists|i: int| 0 <= i < token.references.len() && (#[trigger] token.references[i]).range == at
}

/// Whether every place of a file is that of a reference to the declaration beside it.
pub open spec fn are_recorded(
    tokens: Seq<TokenStaticDataModel>,
    file_id: FileId,
    placed: Seq<(TextRange, TokenId)>,
) -> bool {
    forall|i: int|
        0 <= i < placed.len() ==> {
            let (range, id) = #[trigger] placed[i];
            id.0 < tokens.len() && is_referred_at(
                tokens[id.0 as int],
                FileRange { file_id, range },
            )
        }
}

/// Whether declarations are those of before, with references added, and others after them.
spec fn grows(before: Seq<TokenStaticDataModel>, after: Seq<TokenStaticDataModel>) -> bool {
    &&& before.len() <= after.len()
    &&& forall|i: int, at: FileRange|
        0 <= i < before.len() && is_referred_at(before[i], at) ==> #[trigger] is_referred_at(
            after[i],
            at,
        )
}

proof fn lemma_recorded_stay(
    before: Seq<TokenStaticDataModel>,
    after: Seq<TokenStaticDataModel>,
    file_id: FileId,
    placed: Seq<(TextRange, TokenId)>,
)
    requires
        grows(before, after),
        are_recorded(before, file_id, placed),
    ensures
        are_recorded(after, file_id, placed),
{
    assert forall|i: int| 0 <= i < placed.len() implies {
        let (range, id) = #[trigger] placed[i];
        id.0 < after.len() && is_referred_at(after[id.0 as int], FileRange { file_id, range })
    } by {
        let (range, id) = placed[i];
        assert(is_referred_at(before[id.0 as int], FileRange { file_id, range }));
    }
}

proof fn lemma_reference_grows(
    tokens: Seq<TokenStaticDataModel>,
    number: int,
    reference: ReferenceDataModel,
)
    requires
        0 <= number < tokens.len(),
    ensures
        grows(tokens, tokens.update(number, with_reference(tokens[number], reference))),
        is_referred_at(with_reference(tokens[number], reference), reference.range),
{
    let token = with_reference(tokens[number], reference);
    let after = tokens.update(number, token);
    assert(token.references[tokens[number].references.len() as int] == reference);
    assert forall|i: int, at: FileRange|
        0 <= i < tokens.len() && is_referred_at(tokens[i], at) implies #[trigger] is_referred_at(
        after[i],
        at,
    ) by {
        let k = choose|k: int|
            0 <= k < tokens[i].references.len() && (#[trigger] tokens[i].references[k]).range == at;
        assert(after[i].references[k] == tokens[i].references[k]);
    }
}

impl StaticIndex {
    /// Whether every known number is that of a declaration, and every place of a file is that of a
    /// reference to the declaration beside it.
    pub open spec fn well_formed(self) -> bool {
        &&& is_numbered(self.tokens.deep_view(), self.def_map@)
        &&& forall|i: int|
            0 <= i < self.files.deep_view().len() ==> are_recorded(
                self.tokens.deep_view(),
                (#[trigger] self.files.deep_view()[i]).file_id,
                self.files.deep_view()[i].tokens,
            )
    }

    /// What is known while a file is indexed.
    pub open spec fn progress(self, placed: Seq<(TextRange, TokenId)>) -> Progress {
        Progress { tokens: self.tokens.deep_view(), def_map: self.def_map@, placed }
    }

    fn add_token(
        &mut self,
        placed: &mut Vec<(TextRange, TokenId)>,
        file: &FileFacts,
        krate: Option<usize>,
        site: &Site,
        definition: &DefinitionFacts,
        role: StaticReferenceRole,
    )
        requires
            old(self).well_formed(),
            are_recorded(old(self).tokens.deep_view(), file.file_id, old(placed)@),
            position(krate) == crate_for(file.crates@, old(self).graph),
        ensures
            final(self).well_formed(),
            are_recorded(final(self).tokens.deep_view(), file.file_id, final(placed)@),
            final(self).progress(final(placed)@) == with_use(
                old(self).progress(old(placed)@),
                *file,
                *site,
                *definition,
                role,
                old(self).graph,
            ),
            final(self).files == old(self).files,
            final(self).relations == old(self).relations,
            final(self).graph == old(self).graph,
    {
        let graph = self.graph;
        let ghost start = self.tokens.deep_view();
        let ghost files = self.files.deep_view();
        let ghost places = placed@;
        let id = match map_get(&self.def_map, definition.handle) {
            Some(number) => TokenId(number),
            None => {
                let data = describe(definition, graph, krate, site.scope.is_some());
                let id = self.tokens.insert(data);
                map_insert(&mut self.def_map, definition.handle, id.0);
                id
            },
        };
        let ghost known = self.tokens.deep_view();
        let ghost mut made = arbitrary::<ReferenceDataModel>();
        match self.tokens.get_mut(id) {
            Some(token) => {
                let ghost before = token.deep_view();
                let reference = refer(
                    file,
                    krate,
                    site,
                    definition,
                    role,
                    graph,
                    token.stable_id.as_str(),
                );
                let ghost added = reference.deep_view();
                proof {
                    made = added;
                }
                token.references.push(reference);
                assert(token.references.deep_view() =~= before.references.push(added));
            },
            None => {},
        }
        placed.push((site.range, id));
        proof {
            let after = self.tokens.deep_view();
            lemma_reference_grows(known, id.0 as int, made);
            assert(after == known.update(id.0 as int, with_reference(known[id.0 as int], made)));
            assert(grows(start, after)) by {
                assert forall|i: int, at: FileRange|
                    0 <= i < start.len() && is_referred_at(
                        start[i],
                        at,
                    ) implies #[trigger] is_referred_at(after[i], at) by {
                    assert(known[i] == start[i]);
                }
            }
            assert forall|i: int| 0 <= i < files.len() implies are_recorded(
                after,
                (#[trigger] files[i]).file_id,
                files[i].tokens,
            ) by {
                lemma_recorded_stay(start, after, files[i].file_id, files[i].tokens);
            }
            lemma_recorded_stay(start, after, file.file_id, places);
        }
    }

    fn add_tokens(
        &mut self,
        placed: &mut Vec<(TextRange, TokenId)>,
        file: &FileFacts,
        krate: Option<usize>,
        token: &TokenFacts,
    )
        requires
            old(self).well_formed(),
            are_recorded(old(self).tokens.deep_view(), file.file_id, old(placed)@),
            position(krate) == crate_for(file.crates@, old(self).graph),
        ensures
            final(self).well_formed(),
            are_recorded(final(self).tokens.deep_view(), file.file_id, final(placed)@),
            final(self).progress(final(placed)@) == with_uses(
                old(self).progress(old(placed)@),
                *file,
                *token,
                old(self).graph,
                uses_of(*token, old(self).graph).len() as int,
            ),
            final(self).files == old(self).files,
            final(self).relations == old(self).relations,
            final(self).graph == old(self).graph,
    {
        let graph = self.graph;
        let ghost start = self.progress(placed@);
        let ghost files = self.files;
        let ghost relations = self.relations;
        match get_definitions(token, graph) {
            Some(uses) => {
                let ghost all = uses_of(*token, graph);
                let mut index: usize = 0;
                while index < uses.len()
                    invariant
                        index <= uses.len(),
                        all == referred_uses(uses@),
                        all == uses_of(*token, graph),
                        self.well_formed(),
                        are_recorded(self.tokens.deep_view(), file.file_id, placed@),
                        self.graph == graph,
                        self.files == files,
                        self.relations == relations,
                        position(krate) == crate_for(file.crates@, graph),
                        self.progress(placed@) == with_uses(
                            start,
                            *file,
                            *token,
                            graph,
                            index as int,
                        ),
                    decreases uses.len() - index,
                {
                    let (definition, role) = uses[index];
                    assert(all[index as int] == (*definition, role));
                    self.add_token(placed, file, krate, &token.site, definition, role);
                    index += 1;
                }
            },
            None => {},
        }
    }

    /// Indexes a file.
    pub fn add_file(&mut self, file: &FileFacts)
        requires
            old(self).well_formed(),
        ensures
            final(self).well_formed(),
            final(self).deep_view() == with_file(old(self).deep_view(), *file),
    {
        let graph = self.graph;
        let ghost before = self.deep_view();
        let conditional_build = graph && file.crates.len() > 1;
        let krate = choose_crate(&file.crates, graph);
        if !file.displayed {
            return;
        }
        let mut placed: Vec<(TextRange, TokenId)> = Vec::new();
        let ghost start = self.progress(Seq::empty());
        match &file.module {
            Some(module) => self.add_token(
                &mut placed,
                file,
                krate,
                &file.root,
                module,
                StaticReferenceRole::Reference,
            ),
            None => {},
        }
        let ghost begun = with_module(start, *file, graph);
        let ghost files = self.files;
        let ghost relations = self.relations;
        let mut index: usize = 0;
        while index < file.tokens.len()
            invariant
                index <= file.tokens.len(),
                self.well_formed(),
                are_recorded(self.tokens.deep_view(), file.file_id, placed@),
                self.graph == graph,
                self.files == files,
                self.relations == relations,
                position(krate) == crate_for(file.crates@, graph),
                self.progress(placed@) == with_tokens(begun, *file, graph, index as int),
            decreases file.tokens.len() - index,
        {
            self.add_tokens(&mut placed, file, krate, &file.tokens[index]);
            index += 1;
        }
        let ghost done = self.progress(placed@);
        let result = StaticIndexedFile {
            file_id: file.file_id,
            folds: file.folds.duplicate(),
            tokens: placed,
            conditional_build,
        };
        let ghost added = result.deep_view();
        self.files.push(result);
        proof {
            assert(added.tokens =~= done.placed);
            assert(self.files.deep_view() =~= before.files.push(added));
            assert(self.deep_view() == with_file(before, *file));
        }
    }
}

/// The first facts, from a position on, of a file.
pub open spec fn facts_from(files: Seq<FileFacts>, id: FileId, from: int) -> Option<FileFacts>
    decreases files.len() - from,
{
    if from < 0 || from >= files.len() {
        None
    } else if files[from].file_id == id {
        Some(files[from])
    } else {
        facts_from(files, id, from + 1)
    }
}

fn find_facts(files: &Vec<FileFacts>, id: FileId) -> (found: Option<&FileFacts>)
    ensures
        match found {
            Some(facts) => facts_from(files@, id, 0) == Some(*facts),
            None => facts_from(files@, id, 0) is None,
        },
{
    let mut index: usize = 0;
    while index < files.len()
        invariant
            index <= files.len(),
            facts_from(files@, id, 0) == facts_from(files@, id, index as int),
        decreases files.len() - index,
    {
        if files[index].file_id == id {
            return Some(&files[index]);
        }
        index += 1;
    }
    None
}

/// An index with the first of the given files, each once. A file of which nothing is known is
/// left out.
pub open spec fn with_files(
    index: StaticIndexModel,
    facts: Seq<FileFacts>,
    ids: Seq<FileId>,
    count: int,
) -> StaticIndexModel
    decreases count,
{
    if count <= 0 {
        index
    } else {
        let before = with_files(index, facts, ids, count - 1);
        if ids.take(count - 1).contains(ids[count - 1]) {
            before
        } else {
            match facts_from(facts, ids[count - 1], 0) {
                Some(file) => with_file(before, file),
                None => before,
            }
        }
    }
}

/// The numbers of files.
pub open spec fn raw_ids(ids: Seq<FileId>) -> Set<u32> {
    Set::new(|raw: u32| ids.contains(FileId(raw)))
}

/// An index that knows nothing.
pub open spec fn empty_index(graph: bool) -> StaticIndexModel {
    StaticIndexModel {
        files: Seq::empty(),
        tokens: Seq::empty(),
        relations: Seq::empty(),
        def_map: Map::empty(),
        graph,
    }
}

/// The index of a workspace. Only that of a graph tells how declarations relate.
pub open spec fn index_of(analysis: Analysis, config: VendoredLibrariesConfig, graph: bool) -> StaticIndexModel {
    let modules = visited(analysis.roots@);
    let ids = indexed_files(modules, config, modules.len() as int);
    let built = with_files(empty_index(graph), analysis.files@, ids, ids.len() as int);
    if graph {
        StaticIndexModel { relations: sorted_relations(modules, None), ..built }
    } else {
        built
    }
}

/// The index of some files of a workspace, for a graph.
pub open spec fn index_of_files(analysis: Analysis, ids: Seq<FileId>) -> StaticIndexModel {
    StaticIndexModel {
        relations: sorted_relations(visited(analysis.roots@), Some(raw_ids(ids))),
        ..with_files(empty_index(true), analysis.files@, ids, ids.len() as int)
    }
}

fn start_index(graph: bool) -> (index: StaticIndex)
    ensures
        index.well_formed(),
        index.deep_view() == empty_index(graph),
{
    let index = StaticIndex {
        files: Vec::new(),
        tokens: TokenStore::default(),
        relations: Vec::new(),
        def_map: map_new(),
        graph,
    };
    proof {
        assert(index.files.deep_view() =~= Seq::<StaticIndexedFileModel>::empty());
        assert(index.relations.deep_view() =~= Seq::<StaticRelationModel>::empty());
        assert(index.def_map@ =~= Map::<u64, usize>::empty());
    }
    index
}

fn add_files(index: &mut StaticIndex, facts: &Vec<FileFacts>, ids: &Vec<FileId>) -> (seen: FxHashSet<
    u32,
>)
    requires
        old(index).well_formed(),
    ensures
        final(index).well_formed(),
        final(index).deep_view() == with_files(
            old(index).deep_view(),
            facts@,
            ids@,
            ids@.len() as int,
        ),
        seen@ == raw_ids(ids@),
{
    let ghost start = index.deep_view();
    let mut seen = set_new();
    let mut next: usize = 0;
    assert(seen@ =~= raw_ids(ids@.take(0)));
    while next < ids.len()
        invariant
            next <= ids.len(),
            index.well_formed(),
            index.deep_view() == with_files(start, facts@, ids@, next as int),
            seen@ == raw_ids(ids@.take(next as int)),
        decreases ids.len() - next,
    {
        let id = ids[next];
        let ghost before = ids@.take(next as int);
        assert(before.contains(FileId(id.0)) == seen@.contains(id.0));
        if set_insert(&mut seen, id.0) {
            match find_facts(facts, id) {
                Some(file) => index.add_file(file),
                None => {},
            }
        }
        proof {
            let after = ids@.take(next + 1);
            assert(after =~= before.push(id));
            assert forall|raw: u32| #[trigger]
                raw_ids(after).contains(raw) <==> raw_ids(before).contains(raw) || raw == id.0 by {
                if raw_ids(before).contains(raw) {
                    let i = choose|i: int| 0 <= i < before.len() && before[i] == FileId(raw);
                    assert(after[i] == FileId(raw));
                }
                if raw == id.0 {
                    assert(after[next as int] == FileId(raw));
                }
            }
            assert(seen@ =~= raw_ids(after));
        }
        next += 1;
    }
    assert(ids@.take(next as int) =~= ids@);
    seen
}

impl StaticIndex {
    fn compute_inner(
        analysis: &Analysis,
        vendored_libs_config: VendoredLibrariesConfig<'_>,
        graph: bool,
    ) -> (index: StaticIndex)
        ensures
            index.well_formed(),
            index.deep_view() == index_of(*analysis, vendored_libs_config, graph),
    {
        let modules = all_modules(&analysis.roots);
        let ids = collect_indexed(&modules, vendored_libs_config);
        let mut index = start_index(graph);
        add_files(&mut index, &analysis.files, &ids);
        if graph {
            index.relations = semantic_relations(&modules, None);
        }
        index
    }

    /// Indexes a workspace.
    pub fn compute(analysis: &Analysis, vendored_libs_config: VendoredLibrariesConfig<'_>) -> (index:
        StaticIndex)
        ensures
            index.well_formed(),
            index.deep_view() == index_of(*analysis, vendored_libs_config, false),
    {
        Self::compute_inner(analysis, vendored_libs_config, false)
    }

    /// Indexes a workspace for a graph.
    pub fn compute_graph(
        analysis: &Analysis,
        vendored_libs_config: VendoredLibrariesConfig<'_>,
    ) -> (index: StaticIndex)
        ensures
            index.well_formed(),
            index.deep_view() == index_of(*analysis, vendored_libs_config, true),
    {
        Self::compute_inner(analysis, vendored_libs_config, true)
    }

    /// Indexes only the given files for a graph.
    pub fn compute_graph_files(analysis: &Analysis, file_ids: &Vec<FileId>) -> (index: StaticIndex)
        ensures
            index.well_formed(),
            index.deep_view() == index_of_files(*analysis, file_ids@),
    {
        let modules = all_modules(&analysis.roots);
        let mut index = start_index(true);
        let seen = add_files(&mut index, &analysis.files, file_ids);
        index.relations = semantic_relations(&modules, Some(&seen));
        index
    }

    /// The files that a graph is made of, without indexing them.
    pub fn graph_source_files(
        analysis: &Analysis,
        vendored_libs_config: VendoredLibrariesConfig<'_>,
    ) -> (files: Vec<FileId>)
        ensures
            files@ == source_files(analysis.roots@, vendored_libs_config),
    {
        list_source_files(&analysis.roots, vendored_libs_config)
    }
}

} // verus!
