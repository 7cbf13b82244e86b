//! What an index tells of the declarations and references of files.

use vstd::prelude::*;

use crate::exports::{FileCrate, export_of, full_name, is_visible, named_by};
use crate::files::{FileId, FileRange, TextRange};
use crate::identity::{context_digest, identity_of};
use crate::indexing::{
    Analysis, DefinitionFacts, ExpandedToken, FileFacts, Progress, Site, TokenFacts, crate_for,
    described, empty_index, facts_from, first_classified, index_of, index_of_files,
    is_numbered, least_crate, met,
    reference_to, role_in, use_text_from, uses_of, with_file, with_files, with_module,
    with_reference, with_tokens, with_use, with_uses,
};
use crate::modules::{
    VendoredLibrariesConfig, indexed_files, law_source_files_are_distinct, lemma_indexed_files,
    source_files, visited,
};
use crate::order::Key;
use crate::roles::{Ancestor, NodeKind, role_from, trimmed};
use crate::static_index::{
    ReferenceDataModel, StaticIndexModel, StaticIndexedFileModel, StaticReferenceRole, TokenId,
    TokenStaticDataModel,
};

verus! {

/// Whether an expansion is the first of a token in which it refers to anything.
pub open spec fn is_first_expansion(token: TokenFacts, at: int) -> bool {
    &&& 0 <= at < token.expansions@.len()
    &&& token.expansions@[at].definitions@.len() > 0
    &&& forall|i: int|
        0 <= i < at ==> (#[trigger] token.expansions@[i]).definitions@.len() == 0
}

proof fn lemma_first_expansion(token: TokenFacts, at: int, from: int)
    requires
        is_first_expansion(token, at),
        0 <= from <= at,
    ensures
        first_classified(token.expansions@, from) == Some(at),
    decreases at - from,
{
    if from < at {
        lemma_first_expansion(token, at, from + 1);
    }
}

proof fn lemma_classified(expansions: Seq<ExpandedToken>, from: int)
    requires
        0 <= from,
    ensures
        first_classified(expansions, from) matches Some(at) ==> from <= at < expansions.len()
            && expansions[at].definitions@.len() > 0 && forall|i: int|
            from <= i < at ==> (#[trigger] expansions[i]).definitions@.len() == 0,
    decreases expansions.len() - from,
{
    if from < expansions.len() && expansions[from].definitions@.len() == 0 {
        lemma_classified(expansions, from + 1);
    }
}

/// What an expanded token does with a declaration, as far as it is told.
pub open spec fn is_role(
    graph: bool,
    expanded: ExpandedToken,
    definition: DefinitionFacts,
    role: StaticReferenceRole,
) -> bool {
    &&& graph ==> role == role_from(
        definition.declaration.kind,
        expanded.ancestors@,
        expanded.range,
        0,
    )
    &&& !graph ==> role == StaticReferenceRole::Reference
}

/// Whether a token of a file refers to a declaration, and with which role.
pub open spec fn is_token_use(
    file: FileFacts,
    graph: bool,
    site: Site,
    definition: DefinitionFacts,
    role: StaticReferenceRole,
    t: int,
    e: int,
    d: int,
) -> bool {
    &&& 0 <= t < file.tokens@.len()
    &&& is_first_expansion(file.tokens@[t], e)
    &&& 0 <= d < file.tokens@[t].expansions@[e].definitions@.len()
    &&& site == file.tokens@[t].site
    &&& definition == file.tokens@[t].expansions@[e].definitions@[d]
    &&& is_role(graph, file.tokens@[t].expansions@[e], definition, role)
}

/// Whether a file refers to a declaration: it is the module that the file is, or a token refers to it.
pub open spec fn is_mention(
    file: FileFacts,
    graph: bool,
    site: Site,
    definition: DefinitionFacts,
    role: StaticReferenceRole,
) -> bool {
    ||| file.module == Some(definition) && site == file.root && role
        == StaticReferenceRole::Reference
    ||| exists|t: int, e: int, d: int| #[trigger]
        is_token_use(file, graph, site, definition, role, t, e, d)
}

/// Whether a crate is the one that a file is indexed for: for a graph, the first of those with the
/// least digest, so that it does not depend on the order of the crates; otherwise the last.
pub open spec fn is_crate_of(crates: Seq<FileCrate>, graph: bool, krate: Option<int>) -> bool {
    &&& krate is None <==> crates.len() == 0
    &&& krate matches Some(at) ==> {
        &&& 0 <= at < crates.len()
        &&& !graph ==> at == crates.len() - 1
        &&& graph ==> forall|i: int|
            0 <= i < crates.len() ==> !<String as Key>::before(
                context_digest((#[trigger] crates[i]).facts),
                context_digest(crates[at].facts),
            )
    }
}

proof fn lemma_least_crate(crates: Seq<FileCrate>, count: int)
    requires
        0 <= count <= crates.len(),
    ensures
        least_crate(crates, count) is None <==> count == 0,
        least_crate(crates, count) matches Some(at) ==> 0 <= at < count && forall|i: int|
            0 <= i < count ==> !<String as Key>::before(
                context_digest((#[trigger] crates[i]).facts),
                context_digest(crates[at].facts),
            ),
    decreases count,
{
    if count > 0 {
        lemma_least_crate(crates, count - 1);
        let found = least_crate(crates, count)->0;
        assert forall|i: int| 0 <= i < count implies !<String as Key>::before(
            context_digest((#[trigger] crates[i]).facts),
            context_digest(crates[found].facts),
        ) by {
            let mine = context_digest(crates[i].facts);
            let chosen = context_digest(crates[found].facts);
            <String as Key>::lemma_irreflexive(chosen);
            if least_crate(crates, count - 1) is Some {
                let best = context_digest(crates[least_crate(crates, count - 1)->0].facts);
                if <String as Key>::before(mine, chosen) && found == count - 1 && i != found {
                    <String as Key>::lemma_transitive(mine, chosen, best);
                }
            }
        }
    }
}

/// Whether what an index tells of a declaration is so: who it is, what it is called, who sees it,
/// where it stands, and how it reads.
pub open spec fn is_description(
    token: TokenStaticDataModel,
    definition: DefinitionFacts,
    graph: bool,
    krate: Option<int>,
    in_scope: bool,
) -> bool {
    let moniker = named_by(definition.monikers@, krate);
    &&& graph ==> {
        &&& token.stable_id == identity_of(definition.declaration, moniker)
        &&& token.qualified_name == full_name(moniker, definition.display_name.deep_view())
        &&& token.exported == is_visible(definition.visibility)
        &&& token.external == (definition.nav is Some && definition.nav->0.library)
        &&& token.local == (moniker is Some && moniker->0 is Local)
        &&& token.trait_member == (definition.declaration.container is Some
            && definition.declaration.container->0 is Trait)
        &&& token.const_function == definition.const_function
    }
    &&& !graph ==> {
        &&& token.stable_id.len() == 0
        &&& token.qualified_name is None
        &&& !token.exported && !token.external && !token.local && !token.trait_member
            && !token.const_function
    }
    &&& token.documentation is Some ==> token.documentation == definition.docs.deep_view()
    &&& token.documentation is None ==> definition.docs is None
        || definition.declaration.krate is None || (definition.builtin_type && !in_scope)
    &&& definition.declaration.krate is None ==> token.documentation is None
    &&& definition.builtin_type && !in_scope ==> token.documentation is None
    &&& token.hover == Some(definition.hover@)
    &&& token.signature == Some(definition.signature@)
    &&& token.display_name == definition.display_name.deep_view()
    &&& token.moniker == moniker.deep_view()
    &&& token.kind == definition.declaration.kind
    &&& definition.nav is None ==> token.definition is None && token.definition_body is None
    &&& definition.nav matches Some(nav) ==> {
        &&& token.definition is Some && token.definition->0.file_id == nav.file_id
        &&& nav.focus_range matches Some(focus) ==> token.definition->0.range == focus
        &&& nav.focus_range is None ==> token.definition->0.range == nav.full_range
        &&& token.definition_body is Some && token.definition_body->0.file_id == nav.file_id
        &&& token.definition_body->0.range == trimmed(nav.root, nav.full_range, nav.covering)
    }
}

/// Whether a text is that of the innermost use tree of some nodes, where there is one.
pub open spec fn is_use_spelling(ancestors: Seq<Ancestor>, text: Option<Seq<char>>) -> bool {
    &&& text is None ==> forall|i: int|
        0 <= i < ancestors.len() ==> (#[trigger] ancestors[i]).kind != NodeKind::UseTree
    &&& text matches Some(spelling) ==> exists|at: int|
        0 <= at < ancestors.len() && (#[trigger] ancestors[at]).kind == NodeKind::UseTree
            && ancestors[at].text@ == spelling && forall|i: int|
            0 <= i < at ==> (#[trigger] ancestors[i]).kind != NodeKind::UseTree
}

proof fn lemma_use_spelling(ancestors: Seq<Ancestor>, from: int)
    requires
        0 <= from <= ancestors.len(),
        forall|i: int|
            0 <= i < from ==> (#[trigger] ancestors[i]).kind != NodeKind::UseTree,
    ensures
        is_use_spelling(ancestors, use_text_from(ancestors, from)),
    decreases ancestors.len() - from,
{
    if from < ancestors.len() {
        if ancestors[from].kind == NodeKind::UseTree {
            assert(ancestors[from].text@ == use_text_from(ancestors, from)->0);
        } else {
            lemma_use_spelling(ancestors, from + 1);
        }
    }
}

/// Whether a reference is the one that a place of a file makes to a declaration.
pub open spec fn is_record(
    reference: ReferenceDataModel,
    file: FileFacts,
    graph: bool,
    krate: Option<int>,
    site: Site,
    definition: DefinitionFacts,
    role: StaticReferenceRole,
    stable_id: Seq<char>,
) -> bool {
    let at = FileRange { file_id: file.file_id, range: site.range };
    &&& reference.range == at
    &&& reference.role == role
    &&& reference.is_definition <==> definition.nav is Some && definition.nav->0.file_id
        == file.file_id && site.range == match definition.nav->0.focus_range {
        Some(focus) => focus,
        None => definition.nav->0.full_range,
    }
    &&& graph && (role == StaticReferenceRole::Import || role == StaticReferenceRole::Export)
        ==> is_use_spelling(site.ancestors@, reference.interface_spelling)
    &&& !graph || (role != StaticReferenceRole::Import && role != StaticReferenceRole::Export)
        ==> reference.interface_spelling is None
    &&& graph && role == StaticReferenceRole::Export ==> reference.export == export_of(
        file.crates@,
        krate,
        site.scope,
        definition.declaration.name.deep_view(),
        stable_id,
        at,
        site.ancestors@,
    )
    &&& !graph || role != StaticReferenceRole::Export ==> reference.export is None
}

proof fn lemma_record(
    file: FileFacts,
    graph: bool,
    site: Site,
    definition: DefinitionFacts,
    role: StaticReferenceRole,
    stable_id: Seq<char>,
)
    ensures
        is_crate_of(file.crates@, graph, crate_for(file.crates@, graph)),
        is_record(
            reference_to(file, site, definition, role, graph, stable_id),
            file,
            graph,
            crate_for(file.crates@, graph),
            site,
            definition,
            role,
            stable_id,
        ),
        is_description(
            described(definition, graph, crate_for(file.crates@, graph), site.scope is Some),
            definition,
            graph,
            crate_for(file.crates@, graph),
            site.scope is Some,
        ),
{
    lemma_least_crate(file.crates@, file.crates@.len() as int);
    lemma_use_spelling(site.ancestors@, 0);
}

/// Whether a declaration is the same with references added after those that it has.
spec fn is_extended(before: TokenStaticDataModel, after: TokenStaticDataModel) -> bool {
    &&& after == (TokenStaticDataModel { references: after.references, ..before })
    &&& before.references.len() <= after.references.len()
    &&& forall|j: int|
        0 <= j < before.references.len() ==> #[trigger] after.references[j]
            == before.references[j]
}

spec fn is_continued(before: Progress, after: Progress) -> bool {
    &&& before.tokens.len() <= after.tokens.len()
    &&& before.placed.len() <= after.placed.len()
    &&& forall|n: int|
        0 <= n < before.tokens.len() ==> is_extended(before.tokens[n], #[trigger] after.tokens[n])
    &&& forall|handle: u64| #[trigger]
        before.def_map.contains_key(handle) ==> after.def_map.contains_key(handle)
            && after.def_map[handle] == before.def_map[handle]
    &&& forall|k: int|
        0 <= k < before.placed.len() ==> #[trigger] after.placed[k] == before.placed[k]
}

proof fn lemma_continued(a: Progress, b: Progress, c: Progress)
    requires
        is_continued(a, b),
        is_continued(b, c),
    ensures
        is_continued(a, c),
{
    assert forall|n: int| 0 <= n < a.tokens.len() implies is_extended(
        a.tokens[n],
        #[trigger] c.tokens[n],
    ) by {
        assert(is_extended(a.tokens[n], b.tokens[n]));
        assert(is_extended(b.tokens[n], c.tokens[n]));
    }
}

/// Whether the number of a declaration tells of it.
pub open spec fn is_described(
    tokens: Seq<TokenStaticDataModel>,
    def_map: Map<u64, usize>,
    facts: Seq<FileFacts>,
    graph: bool,
    n: int,
) -> bool {
    exists|f: int, krate: Option<int>, site: Site, definition: DefinitionFacts,
        role: StaticReferenceRole|
        is_told_of(tokens, def_map, facts, graph, n, f, krate, site, definition, role)
}

/// Whether a file refers to a declaration that has a number, and the number tells of it.
pub open spec fn is_told_of(
    tokens: Seq<TokenStaticDataModel>,
    def_map: Map<u64, usize>,
    facts: Seq<FileFacts>,
    graph: bool,
    n: int,
    f: int,
    krate: Option<int>,
    site: Site,
    definition: DefinitionFacts,
    role: StaticReferenceRole,
) -> bool {
    &&& 0 <= f < facts.len()
    &&& is_crate_of(facts[f].crates@, graph, krate)
    &&& is_mention(facts[f], graph, site, definition, role)
    &&& def_map.contains_key(definition.handle)
    &&& def_map[definition.handle] == n
    &&& is_description(tokens[n], definition, graph, krate, site.scope is Some)
}

/// Whether a reference of a declaration is made by a file that is displayed.
pub open spec fn is_made(
    tokens: Seq<TokenStaticDataModel>,
    def_map: Map<u64, usize>,
    facts: Seq<FileFacts>,
    graph: bool,
    n: int,
    j: int,
) -> bool {
    exists|f: int, krate: Option<int>, site: Site, definition: DefinitionFacts,
        role: StaticReferenceRole|
        is_made_by(tokens, def_map, facts, graph, n, j, f, krate, site, definition, role)
}

/// Whether a reference of a declaration is the one that a place of a file makes to it.
pub open spec fn is_made_by(
    tokens: Seq<TokenStaticDataModel>,
    def_map: Map<u64, usize>,
    facts: Seq<FileFacts>,
    graph: bool,
    n: int,
    j: int,
    f: int,
    krate: Option<int>,
    site: Site,
    definition: DefinitionFacts,
    role: StaticReferenceRole,
) -> bool {
    &&& 0 <= f < facts.len()
    &&& facts[f].displayed
    &&& is_crate_of(facts[f].crates@, graph, krate)
    &&& is_mention(facts[f], graph, site, definition, role)
    &&& def_map.contains_key(definition.handle)
    &&& def_map[definition.handle] == n
    &&& is_record(
        tokens[n].references[j],
        facts[f],
        graph,
        krate,
        site,
        definition,
        role,
        tokens[n].stable_id,
    )
}

/// Whether everything that is told comes from some files.
spec fn is_founded(progress: Progress, facts: Seq<FileFacts>, graph: bool) -> bool {
    &&& forall|handle: u64| #[trigger]
        progress.def_map.contains_key(handle) ==> progress.def_map[handle] < progress.tokens.len()
    &&& forall|n: int|
        0 <= n < progress.tokens.len() ==> #[trigger] is_described(
            progress.tokens,
            progress.def_map,
            facts,
            graph,
            n,
        )
    &&& forall|n: int, j: int|
        0 <= n < progress.tokens.len() && 0 <= j < progress.tokens[n].references.len()
            ==> #[trigger] is_made(progress.tokens, progress.def_map, facts, graph, n, j)
}

/// Whether a place of a file is recorded: the declaration has a number, the reference is among those
/// of the number, and the place is listed with the number.
pub open spec fn is_recorded(
    tokens: Seq<TokenStaticDataModel>,
    def_map: Map<u64, usize>,
    placed: Seq<(TextRange, TokenId)>,
    file: FileFacts,
    graph: bool,
    site: Site,
    definition: DefinitionFacts,
    role: StaticReferenceRole,
) -> bool {
    &&& def_map.contains_key(definition.handle)
    &&& def_map[definition.handle] < tokens.len()
    &&& exists|k: int|
        0 <= k < placed.len() && #[trigger] placed[k] == (
            site.range,
            TokenId(def_map[definition.handle]),
        )
    &&& exists|j: int, krate: Option<int>|
        is_crate_of(file.crates@, graph, krate) && 0 <= j
            < tokens[def_map[definition.handle] as int].references.len() && #[trigger] is_record(
            tokens[def_map[definition.handle] as int].references[j],
            file,
            graph,
            krate,
            site,
            definition,
            role,
            tokens[def_map[definition.handle] as int].stable_id,
        )
}

spec fn holds(
    progress: Progress,
    file: FileFacts,
    graph: bool,
    site: Site,
    definition: DefinitionFacts,
    role: StaticReferenceRole,
) -> bool {
    is_recorded(
        progress.tokens,
        progress.def_map,
        progress.placed,
        file,
        graph,
        site,
        definition,
        role,
    )
}

proof fn lemma_holds_on(
    before: Progress,
    after: Progress,
    file: FileFacts,
    graph: bool,
    site: Site,
    definition: DefinitionFacts,
    role: StaticReferenceRole,
)
    requires
        holds(before, file, graph, site, definition, role),
        is_continued(before, after),
    ensures
        holds(after, file, graph, site, definition, role),
{
    let number = before.def_map[definition.handle];
    let k = choose|k: int|
        0 <= k < before.placed.len() && #[trigger] before.placed[k] == (site.range, TokenId(number));
    assert(after.placed[k] == before.placed[k]);
    let (j, krate) = choose|j: int, krate: Option<int>|
        is_crate_of(file.crates@, graph, krate) && 0 <= j
            < before.tokens[number as int].references.len() && #[trigger] is_record(
            before.tokens[number as int].references[j],
            file,
            graph,
            krate,
            site,
            definition,
            role,
            before.tokens[number as int].stable_id,
        );
    assert(is_extended(before.tokens[number as int], after.tokens[number as int]));
    assert(after.tokens[number as int].references[j] == before.tokens[number as int].references[j]);
    assert(is_record(
        after.tokens[number as int].references[j],
        file,
        graph,
        krate,
        site,
        definition,
        role,
        after.tokens[number as int].stable_id,
    ));
}

proof fn lemma_described_on(
    before: Progress,
    after: Progress,
    facts: Seq<FileFacts>,
    graph: bool,
    n: int,
)
    requires
        is_continued(before, after),
        0 <= n < before.tokens.len(),
        is_described(before.tokens, before.def_map, facts, graph, n),
    ensures
        is_described(after.tokens, after.def_map, facts, graph, n),
{
    let (g, k, s, d, r) = choose|
        g: int,
        k: Option<int>,
        s: Site,
        d: DefinitionFacts,
        r: StaticReferenceRole,
    |
        is_told_of(before.tokens, before.def_map, facts, graph, n, g, k, s, d, r);
    assert(is_extended(before.tokens[n], after.tokens[n]));
    assert(is_told_of(after.tokens, after.def_map, facts, graph, n, g, k, s, d, r));
}

proof fn lemma_made_on(
    before: Progress,
    after: Progress,
    facts: Seq<FileFacts>,
    graph: bool,
    n: int,
    j: int,
)
    requires
        is_continued(before, after),
        0 <= n < before.tokens.len(),
        0 <= j < before.tokens[n].references.len(),
        is_made(before.tokens, before.def_map, facts, graph, n, j),
    ensures
        is_made(after.tokens, after.def_map, facts, graph, n, j),
{
    let (g, k, s, d, r) = choose|
        g: int,
        k: Option<int>,
        s: Site,
        d: DefinitionFacts,
        r: StaticReferenceRole,
    |
        is_made_by(before.tokens, before.def_map, facts, graph, n, j, g, k, s, d, r);
    assert(is_extended(before.tokens[n], after.tokens[n]));
    assert(after.tokens[n].references[j] == before.tokens[n].references[j]);
    assert(is_made_by(after.tokens, after.def_map, facts, graph, n, j, g, k, s, d, r));
}

proof fn lemma_met(
    progress: Progress,
    facts: Seq<FileFacts>,
    f: int,
    graph: bool,
    site: Site,
    definition: DefinitionFacts,
    role: StaticReferenceRole,
)
    requires
        is_founded(progress, facts, graph),
        0 <= f < facts.len(),
        is_mention(facts[f], graph, site, definition, role),
        progress.tokens.len() <= usize::MAX,
    ensures
        ({
            let known = met(progress, facts[f], site, definition, graph);
            &&& is_founded(known, facts, graph)
            &&& is_continued(progress, known)
            &&& known.def_map.contains_key(definition.handle)
            &&& known.tokens.len() <= progress.tokens.len() + 1
            &&& known.placed == progress.placed
        }),
{
    let file = facts[f];
    let krate = crate_for(file.crates@, graph);
    let known = met(progress, file, site, definition, graph);
    lemma_record(file, graph, site, definition, role, Seq::empty());
    assert forall|n: int| 0 <= n < progress.tokens.len() implies is_extended(
        progress.tokens[n],
        #[trigger] known.tokens[n],
    ) by {
        assert(known.tokens[n] == progress.tokens[n]);
    }
    assert(is_continued(progress, known));
    assert forall|n: int| 0 <= n < known.tokens.len() implies #[trigger] is_described(
        known.tokens,
        known.def_map,
        facts,
        graph,
        n,
    ) by {
        if n < progress.tokens.len() {
            assert(is_described(progress.tokens, progress.def_map, facts, graph, n));
            lemma_described_on(progress, known, facts, graph, n);
        } else {
            assert(is_told_of(
                known.tokens,
                known.def_map,
                facts,
                graph,
                n,
                f,
                krate,
                site,
                definition,
                role,
            ));
        }
    }
    assert forall|n: int, j: int|
        0 <= n < known.tokens.len() && 0 <= j
            < known.tokens[n].references.len() implies #[trigger] is_made(
        known.tokens,
        known.def_map,
        facts,
        graph,
        n,
        j,
    ) by {
        assert(n < progress.tokens.len());
        assert(known.tokens[n] == progress.tokens[n]);
        assert(is_made(progress.tokens, progress.def_map, facts, graph, n, j));
        lemma_made_on(progress, known, facts, graph, n, j);
    }
}

proof fn lemma_use(
    progress: Progress,
    facts: Seq<FileFacts>,
    f: int,
    graph: bool,
    site: Site,
    definition: DefinitionFacts,
    role: StaticReferenceRole,
)
    requires
        is_founded(progress, facts, graph),
        0 <= f < facts.len(),
        facts[f].displayed,
        is_mention(facts[f], graph, site, definition, role),
        progress.tokens.len() <= usize::MAX,
    ensures
        ({
            let after = with_use(progress, facts[f], site, definition, role, graph);
            &&& is_founded(after, facts, graph)
            &&& is_continued(progress, after)
            &&& holds(after, facts[f], graph, site, definition, role)
            &&& after.tokens.len() <= progress.tokens.len() + 1
        }),
{
    let file = facts[f];
    let krate = crate_for(file.crates@, graph);
    let known = met(progress, file, site, definition, graph);
    let after = with_use(progress, file, site, definition, role, graph);
    let number = known.def_map[definition.handle] as int;
    lemma_met(progress, facts, f, graph, site, definition, role);
    let token = known.tokens[number];
    let reference = reference_to(file, site, definition, role, graph, token.stable_id);
    let last = token.references.len() as int;
    assert(0 <= number < known.tokens.len());
    assert(after.tokens[number] == with_reference(token, reference));
    assert(after.tokens[number].references[last] == reference);
    assert(after.placed[progress.placed.len() as int] == (
        site.range,
        TokenId(after.def_map[definition.handle]),
    ));
    assert forall|n: int| 0 <= n < known.tokens.len() implies is_extended(
        known.tokens[n],
        #[trigger] after.tokens[n],
    ) by {
        if n != number {
            assert(after.tokens[n] == known.tokens[n]);
        }
    }
    assert(is_continued(known, after));
    lemma_continued(progress, known, after);
    assert(is_crate_of(file.crates@, graph, krate) && is_record(
        after.tokens[number].references[last],
        file,
        graph,
        krate,
        site,
        definition,
        role,
        after.tokens[number].stable_id,
    )) by {
        lemma_record(file, graph, site, definition, role, token.stable_id);
    }
    assert(holds(after, file, graph, site, definition, role));
    assert(is_made_by(
        after.tokens,
        after.def_map,
        facts,
        graph,
        number,
        last,
        f,
        krate,
        site,
        definition,
        role,
    ));
    assert forall|n: int| 0 <= n < after.tokens.len() implies #[trigger] is_described(
        after.tokens,
        after.def_map,
        facts,
        graph,
        n,
    ) by {
        assert(is_described(known.tokens, known.def_map, facts, graph, n));
        lemma_described_on(known, after, facts, graph, n);
    }
    assert forall|n: int, j: int|
        0 <= n < after.tokens.len() && 0 <= j
            < after.tokens[n].references.len() implies #[trigger] is_made(
        after.tokens,
        after.def_map,
        facts,
        graph,
        n,
        j,
    ) by {
        if j < known.tokens[n].references.len() {
            assert(is_made(known.tokens, known.def_map, facts, graph, n, j));
            lemma_made_on(known, after, facts, graph, n, j);
        } else {
            assert(n == number && j == last);
        }
    }
}

proof fn lemma_uses_are_mentions(file: FileFacts, graph: bool, t: int, d: int)
    requires
        0 <= t < file.tokens@.len(),
        0 <= d < uses_of(file.tokens@[t], graph).len(),
    ensures
        is_mention(
            file,
            graph,
            file.tokens@[t].site,
            uses_of(file.tokens@[t], graph)[d].0,
            uses_of(file.tokens@[t], graph)[d].1,
        ),
{
    let token = file.tokens@[t];
    lemma_classified(token.expansions@, 0);
    let e = first_classified(token.expansions@, 0)->0;
    let (definition, role) = uses_of(token, graph)[d];
    assert(role == role_in(graph, token.expansions@[e], definition));
    assert(is_token_use(file, graph, token.site, definition, role, t, e, d));
}

spec fn holds_uses(
    progress: Progress,
    file: FileFacts,
    graph: bool,
    t: int,
    count: int,
) -> bool {
    forall|d: int|
        0 <= d < count ==> holds(
            progress,
            file,
            graph,
            file.tokens@[t].site,
            (#[trigger] uses_of(file.tokens@[t], graph)[d]).0,
            uses_of(file.tokens@[t], graph)[d].1,
        )
}

proof fn lemma_holds_uses_on(
    before: Progress,
    after: Progress,
    file: FileFacts,
    graph: bool,
    t: int,
    count: int,
)
    requires
        holds_uses(before, file, graph, t, count),
        is_continued(before, after),
    ensures
        holds_uses(after, file, graph, t, count),
{
    assert forall|d: int| 0 <= d < count implies holds(
        after,
        file,
        graph,
        file.tokens@[t].site,
        (#[trigger] uses_of(file.tokens@[t], graph)[d]).0,
        uses_of(file.tokens@[t], graph)[d].1,
    ) by {
        let (definition, role) = uses_of(file.tokens@[t], graph)[d];
        lemma_holds_on(before, after, file, graph, file.tokens@[t].site, definition, role);
    }
}

proof fn lemma_use_grows(
    progress: Progress,
    file: FileFacts,
    site: Site,
    definition: DefinitionFacts,
    role: StaticReferenceRole,
    graph: bool,
)
    requires
        is_numbered(progress.tokens, progress.def_map),
    ensures
        ({
            let after = with_use(progress, file, site, definition, role, graph);
            &&& is_numbered(after.tokens, after.def_map)
            &&& progress.tokens.len() <= after.tokens.len()
        }),
{
    let known = met(progress, file, site, definition, graph);
    assert(known.def_map[definition.handle] < known.tokens.len());
    assert forall|handle: u64| #[trigger]
        known.def_map.contains_key(handle) implies known.def_map[handle] < known.tokens.len() by {
        if progress.def_map.contains_key(handle) {
            assert(progress.def_map[handle] < progress.tokens.len());
        }
    }
}

proof fn lemma_uses(
    progress: Progress,
    facts: Seq<FileFacts>,
    f: int,
    graph: bool,
    t: int,
    count: int,
)
    requires
        is_founded(progress, facts, graph),
        0 <= f < facts.len(),
        facts[f].displayed,
        0 <= t < facts[f].tokens@.len(),
        0 <= count <= uses_of(facts[f].tokens@[t], graph).len(),
        with_uses(progress, facts[f], facts[f].tokens@[t], graph, count).tokens.len() <= usize::MAX,
    ensures
        ({
            let after = with_uses(progress, facts[f], facts[f].tokens@[t], graph, count);
            &&& is_founded(after, facts, graph)
            &&& is_continued(progress, after)
            &&& holds_uses(after, facts[f], graph, t, count)
            &&& progress.tokens.len() <= after.tokens.len()
        }),
    decreases count,
{
    if count > 0 {
        let file = facts[f];
        let token = file.tokens@[t];
        let before = with_uses(progress, file, token, graph, count - 1);
        let after = with_uses(progress, file, token, graph, count);
        let (definition, role) = uses_of(token, graph)[count - 1];
        lemma_uses_grow(progress, file, token, graph, count - 1);
        lemma_use_grows(before, file, token.site, definition, role, graph);
        lemma_uses(progress, facts, f, graph, t, count - 1);
        lemma_uses_are_mentions(file, graph, t, count - 1);
        lemma_use(before, facts, f, graph, token.site, definition, role);
        lemma_continued(progress, before, after);
        lemma_holds_uses_on(before, after, file, graph, t, count - 1);
    }
}

spec fn holds_tokens(progress: Progress, file: FileFacts, graph: bool, count: int) -> bool {
    forall|t: int|
        0 <= t < count ==> holds_uses(
            progress,
            file,
            graph,
            t,
            uses_of(#[trigger] file.tokens@[t], graph).len() as int,
        )
}

proof fn lemma_uses_grow(
    progress: Progress,
    file: FileFacts,
    token: TokenFacts,
    graph: bool,
    count: int,
)
    requires
        is_numbered(progress.tokens, progress.def_map),
    ensures
        ({
            let after = with_uses(progress, file, token, graph, count);
            &&& is_numbered(after.tokens, after.def_map)
            &&& progress.tokens.len() <= after.tokens.len()
        }),
    decreases count,
{
    if count > 0 {
        lemma_uses_grow(progress, file, token, graph, count - 1);
        let (definition, role) = uses_of(token, graph)[count - 1];
        lemma_use_grows(
            with_uses(progress, file, token, graph, count - 1),
            file,
            token.site,
            definition,
            role,
            graph,
        );
    }
}

proof fn lemma_tokens(
    progress: Progress,
    facts: Seq<FileFacts>,
    f: int,
    graph: bool,
    count: int,
)
    requires
        is_founded(progress, facts, graph),
        0 <= f < facts.len(),
        facts[f].displayed,
        0 <= count <= facts[f].tokens@.len(),
        with_tokens(progress, facts[f], graph, count).tokens.len() <= usize::MAX,
    ensures
        ({
            let after = with_tokens(progress, facts[f], graph, count);
            &&& is_founded(after, facts, graph)
            &&& is_continued(progress, after)
            &&& holds_tokens(after, facts[f], graph, count)
        }),
    decreases count,
{
    if count > 0 {
        let file = facts[f];
        let token = file.tokens@[count - 1];
        let before = with_tokens(progress, file, graph, count - 1);
        let after = with_tokens(progress, file, graph, count);
        let length = uses_of(token, graph).len() as int;
        lemma_tokens_grow(progress, file, graph, count - 1);
        lemma_uses_grow(before, file, token, graph, length);
        lemma_tokens(progress, facts, f, graph, count - 1);
        lemma_uses(before, facts, f, graph, count - 1, length);
        lemma_continued(progress, before, after);
        assert forall|t: int| 0 <= t < count implies holds_uses(
            after,
            file,
            graph,
            t,
            uses_of(#[trigger] file.tokens@[t], graph).len() as int,
        ) by {
            if t < count - 1 {
                lemma_holds_uses_on(
                    before,
                    after,
                    file,
                    graph,
                    t,
                    uses_of(file.tokens@[t], graph).len() as int,
                );
            }
        }
    }
}

proof fn lemma_tokens_grow(progress: Progress, file: FileFacts, graph: bool, count: int)
    requires
        is_numbered(progress.tokens, progress.def_map),
    ensures
        ({
            let after = with_tokens(progress, file, graph, count);
            &&& is_numbered(after.tokens, after.def_map)
            &&& progress.tokens.len() <= after.tokens.len()
        }),
    decreases count,
{
    if count > 0 {
        let before = with_tokens(progress, file, graph, count - 1);
        let token = file.tokens@[count - 1];
        lemma_tokens_grow(progress, file, graph, count - 1);
        lemma_uses_grow(before, file, token, graph, uses_of(token, graph).len() as int);
    }
}

/// What is known of an index, with the places of one of its files.
spec fn known_with(index: StaticIndexModel, placed: Seq<(TextRange, TokenId)>) -> Progress {
    Progress { tokens: index.tokens, def_map: index.def_map, placed }
}

spec fn holds_file(progress: Progress, file: FileFacts, graph: bool) -> bool {
    &&& holds_tokens(progress, file, graph, file.tokens@.len() as int)
    &&& file.module matches Some(module) ==> holds(
        progress,
        file,
        graph,
        file.root,
        module,
        StaticReferenceRole::Reference,
    )
}

proof fn lemma_holds_file_on(before: Progress, after: Progress, file: FileFacts, graph: bool)
    requires
        holds_file(before, file, graph),
        is_continued(before, after),
    ensures
        holds_file(after, file, graph),
{
    assert forall|t: int| 0 <= t < file.tokens@.len() implies holds_uses(
        after,
        file,
        graph,
        t,
        uses_of(#[trigger] file.tokens@[t], graph).len() as int,
    ) by {
        lemma_holds_uses_on(
            before,
            after,
            file,
            graph,
            t,
            uses_of(file.tokens@[t], graph).len() as int,
        );
    }
    if file.module is Some {
        lemma_holds_on(
            before,
            after,
            file,
            graph,
            file.root,
            file.module->0,
            StaticReferenceRole::Reference,
        );
    }
}

/// Whether an entry of an index is that of a file: with its folds, and marked where a graph is made
/// and the file belongs to several crates.
pub open spec fn is_entry_of(
    entry: StaticIndexedFileModel,
    file: FileFacts,
    graph: bool,
) -> bool {
    &&& entry.file_id == file.file_id
    &&& entry.folds == file.folds.deep_view()
    &&& entry.conditional_build <==> graph && file.crates@.len() > 1
}

proof fn lemma_known_on(
    before: StaticIndexModel,
    after: StaticIndexModel,
    added: Seq<(TextRange, TokenId)>,
    placed: Seq<(TextRange, TokenId)>,
)
    requires
        is_continued(known_with(before, Seq::empty()), known_with(after, added)),
    ensures
        is_continued(known_with(before, placed), known_with(after, placed)),
{
    let a = known_with(before, Seq::empty());
    let b = known_with(after, added);
    let c = known_with(before, placed);
    let d = known_with(after, placed);
    assert(c.tokens == a.tokens && c.def_map == a.def_map);
    assert(d.tokens == b.tokens && d.def_map == b.def_map);
    assert forall|n: int| 0 <= n < c.tokens.len() implies is_extended(
        c.tokens[n],
        #[trigger] d.tokens[n],
    ) by {
        assert(is_extended(a.tokens[n], b.tokens[n]));
    }
    assert forall|handle: u64| #[trigger]
        c.def_map.contains_key(handle) implies d.def_map.contains_key(handle) && d.def_map[handle]
        == c.def_map[handle] by {
        assert(a.def_map.contains_key(handle));
    }
}

proof fn lemma_founded(index: StaticIndexModel, facts: Seq<FileFacts>, graph: bool, n: int)
    requires
        is_founded(known_with(index, Seq::empty()), facts, graph),
        0 <= n < index.tokens.len(),
    ensures
        is_described(index.tokens, index.def_map, facts, graph, n),
        forall|j: int|
            0 <= j < index.tokens[n].references.len() ==> #[trigger] is_made(
                index.tokens,
                index.def_map,
                facts,
                graph,
                n,
                j,
            ),
{
    let progress = known_with(index, Seq::empty());
    assert(is_described(progress.tokens, progress.def_map, facts, graph, n));
    assert forall|j: int| 0 <= j < index.tokens[n].references.len() implies #[trigger] is_made(
        index.tokens,
        index.def_map,
        facts,
        graph,
        n,
        j,
    ) by {
        assert(is_made(progress.tokens, progress.def_map, facts, graph, n, j));
    }
}

proof fn lemma_file_grows(index: StaticIndexModel, file: FileFacts)
    requires
        is_numbered(index.tokens, index.def_map),
    ensures
        ({
            let after = with_file(index, file);
            &&& is_numbered(after.tokens, after.def_map)
            &&& index.tokens.len() <= after.tokens.len()
        }),
{
    let graph = index.graph;
    let start = known_with(index, Seq::empty());
    let begun = with_module(start, file, graph);
    if file.module is Some {
        lemma_use_grows(
            start,
            file,
            file.root,
            file.module->0,
            StaticReferenceRole::Reference,
            graph,
        );
    }
    lemma_tokens_grow(begun, file, graph, file.tokens@.len() as int);
}

proof fn lemma_files_grow(graph: bool, facts: Seq<FileFacts>, ids: Seq<FileId>, count: int)
    ensures
        ({
            let after = with_files(empty_index(graph), facts, ids, count);
            is_numbered(after.tokens, after.def_map)
        }),
    decreases count,
{
    if count > 0 {
        lemma_files_grow(graph, facts, ids, count - 1);
        let before = with_files(empty_index(graph), facts, ids, count - 1);
        if facts_from(facts, ids[count - 1], 0) is Some {
            lemma_file_grows(before, facts_from(facts, ids[count - 1], 0)->0);
        }
    }
}

proof fn lemma_file(index: StaticIndexModel, facts: Seq<FileFacts>, f: int)
    requires
        is_founded(known_with(index, Seq::empty()), facts, index.graph),
        0 <= f < facts.len(),
        facts[f].displayed,
        with_file(index, facts[f]).tokens.len() <= usize::MAX,
    ensures
        ({
            let after = with_file(index, facts[f]);
            let entry = after.files.last();
            &&& is_founded(known_with(after, Seq::empty()), facts, index.graph)
            &&& is_continued(known_with(index, Seq::empty()), known_with(after, entry.tokens))
            &&& holds_file(known_with(after, entry.tokens), facts[f], index.graph)
            &&& is_entry_of(entry, facts[f], index.graph)
            &&& index.tokens.len() <= after.tokens.len()
        }),
{
    let file = facts[f];
    let graph = index.graph;
    let start = known_with(index, Seq::empty());
    let begun = with_module(start, file, graph);
    let done = with_tokens(begun, file, graph, file.tokens@.len() as int);
    assert forall|handle: u64| #[trigger]
        index.def_map.contains_key(handle) implies index.def_map[handle] < index.tokens.len() by {
        assert(start.def_map.contains_key(handle));
    }
    lemma_file_grows(index, file);
    if file.module is Some {
        lemma_use_grows(
            start,
            file,
            file.root,
            file.module->0,
            StaticReferenceRole::Reference,
            graph,
        );
    }
    lemma_tokens_grow(begun, file, graph, file.tokens@.len() as int);
    if file.module is Some {
        lemma_use(start, facts, f, graph, file.root, file.module->0, StaticReferenceRole::Reference);
    }
    lemma_tokens(begun, facts, f, graph, file.tokens@.len() as int);
    lemma_continued(start, begun, done);
    if file.module is Some {
        lemma_holds_on(
            begun,
            done,
            file,
            graph,
            file.root,
            file.module->0,
            StaticReferenceRole::Reference,
        );
    }
    let after = with_file(index, file);
    assert(after.files.last().tokens == done.placed);
    assert(known_with(after, done.placed) == done);
    assert(is_founded(known_with(after, Seq::empty()), facts, graph));
}

/// Whether an index has an entry for a file, and every place of the file is recorded with it.
spec fn is_complete_for(index: StaticIndexModel, file: FileFacts, graph: bool) -> bool {
    exists|k: int| #[trigger] is_complete_at(index, file, graph, k)
}

spec fn is_complete_at(index: StaticIndexModel, file: FileFacts, graph: bool, k: int) -> bool {
    &&& 0 <= k < index.files.len()
    &&& is_entry_of(index.files[k], file, graph)
    &&& holds_file(known_with(index, index.files[k].tokens), file, graph)
}

/// Whether facts are the first of their file.
pub open spec fn is_first_of_file(facts: Seq<FileFacts>, f: int) -> bool {
    &&& 0 <= f < facts.len()
    &&& forall|g: int|
        0 <= g < f ==> (#[trigger] facts[g]).file_id != facts[f].file_id
}

proof fn lemma_facts(facts: Seq<FileFacts>, id: FileId, from: int)
    requires
        0 <= from,
    ensures
        facts_from(facts, id, from) matches Some(found) ==> exists|f: int|
            from <= f < facts.len() && found == #[trigger] facts[f] && facts[f].file_id == id
                && forall|g: int| from <= g < f ==> (#[trigger] facts[g]).file_id != id,
        facts_from(facts, id, from) is None ==> forall|g: int|
            from <= g < facts.len() ==> (#[trigger] facts[g]).file_id != id,
    decreases facts.len() - from,
{
    if from < facts.len() && facts[from].file_id != id {
        lemma_facts(facts, id, from + 1);
    }
}

spec fn are_complete(
    index: StaticIndexModel,
    facts: Seq<FileFacts>,
    ids: Seq<FileId>,
    graph: bool,
    count: int,
) -> bool {
    forall|i: int, f: int|
        0 <= i < count && 0 <= f < facts.len() && #[trigger] ids[i] == (#[trigger] facts[f]).file_id
            && is_first_of_file(facts, f) && facts[f].displayed ==> is_complete_for(
            index,
            facts[f],
            graph,
        )
}

proof fn lemma_files(graph: bool, facts: Seq<FileFacts>, ids: Seq<FileId>, count: int)
    requires
        0 <= count <= ids.len(),
        with_files(empty_index(graph), facts, ids, count).tokens.len() <= usize::MAX,
    ensures
        ({
            let after = with_files(empty_index(graph), facts, ids, count);
            &&& after.graph == graph
            &&& is_founded(known_with(after, Seq::empty()), facts, graph)
            &&& are_complete(after, facts, ids, graph, count)
        }),
    decreases count,
{
    if count > 0 {
        let before = with_files(empty_index(graph), facts, ids, count - 1);
        let after = with_files(empty_index(graph), facts, ids, count);
        let id = ids[count - 1];
        lemma_facts(facts, id, 0);
        let found = facts_from(facts, id, 0);
        if ids.take(count - 1).contains(id) {
            lemma_files(graph, facts, ids, count - 1);
            let listed = ids.take(count - 1);
            let earlier = choose|i: int| 0 <= i < listed.len() && listed[i] == id;
            assert(ids[earlier] == id);
        } else if found is Some && found->0.displayed {
            let f = choose|f: int|
                0 <= f < facts.len() && found->0 == #[trigger] facts[f] && facts[f].file_id == id
                    && forall|g: int| 0 <= g < f ==> (#[trigger] facts[g]).file_id != id;
            let file = facts[f];
            lemma_files_grow(graph, facts, ids, count - 1);
            lemma_file_grows(before, file);
            lemma_files(graph, facts, ids, count - 1);
            lemma_file(before, facts, f);
            let k = after.files.len() - 1;
            assert(is_complete_at(after, file, graph, k));
            assert forall|i: int, g: int|
                0 <= i < count && 0 <= g < facts.len() && #[trigger] ids[i] == (
                #[trigger] facts[g]).file_id && is_first_of_file(facts, g)
                    && facts[g].displayed implies is_complete_for(after, facts[g], graph) by {
                if facts[g].file_id == id {
                    assert(g == f) by {
                        if g < f {
                            assert(facts[g].file_id != id);
                        } else if f < g {
                            assert(facts[f].file_id != facts[g].file_id);
                        }
                    }
                } else {
                    assert(is_complete_for(before, facts[g], graph));
                    let m = choose|m: int| #[trigger] is_complete_at(before, facts[g], graph, m);
                    assert(after.files[m] == before.files[m]);
                    let placed = before.files[m].tokens;
                    lemma_known_on(before, after, after.files.last().tokens, placed);
                    lemma_holds_file_on(
                        known_with(before, placed),
                        known_with(after, placed),
                        facts[g],
                        graph,
                    );
                    assert(is_complete_at(after, facts[g], graph, m));
                }
            }
        } else {
            lemma_files(graph, facts, ids, count - 1);
            assert(after == before);
            assert forall|i: int, g: int|
                0 <= i < count && 0 <= g < facts.len() && #[trigger] ids[i] == (
                #[trigger] facts[g]).file_id && is_first_of_file(facts, g)
                    && facts[g].displayed implies is_complete_for(after, facts[g], graph) by {
                if i == count - 1 {
                    let f = choose|f: int|
                        0 <= f < facts.len() && found->0 == #[trigger] facts[f] && facts[f].file_id
                            == id && forall|g: int|
                            0 <= g < f ==> (#[trigger] facts[g]).file_id != id;
                    assert(found is Some);
                    if g < f {
                        assert(facts[g].file_id != id);
                    } else if f < g {
                        assert(facts[f].file_id != facts[g].file_id);
                    }
                }
            }
        }
    }
}

/// Whether an index records that a file refers to a declaration: it has an entry for the file that
/// lists the place with the number of the declaration, and the reference is among those of the number.
pub open spec fn records(
    index: StaticIndexModel,
    file: FileFacts,
    site: Site,
    definition: DefinitionFacts,
    role: StaticReferenceRole,
) -> bool {
    exists|k: int|
        0 <= k < index.files.len() && is_entry_of(#[trigger] index.files[k], file, index.graph)
            && is_recorded(
            index.tokens,
            index.def_map,
            index.files[k].tokens,
            file,
            index.graph,
            site,
            definition,
            role,
        )
}

proof fn lemma_records(
    index: StaticIndexModel,
    file: FileFacts,
    site: Site,
    definition: DefinitionFacts,
    role: StaticReferenceRole,
)
    requires
        is_complete_for(index, file, index.graph),
        is_mention(file, index.graph, site, definition, role),
    ensures
        records(index, file, site, definition, role),
{
    let graph = index.graph;
    let k = choose|k: int| #[trigger] is_complete_at(index, file, graph, k);
    let progress = known_with(index, index.files[k].tokens);
    if !(file.module == Some(definition) && site == file.root && role
        == StaticReferenceRole::Reference) {
        let (t, e, d) = choose|t: int, e: int, d: int| #[trigger]
            is_token_use(file, graph, site, definition, role, t, e, d);
        let token = file.tokens@[t];
        lemma_first_expansion(token, e, 0);
        assert(uses_of(token, graph)[d] == (definition, role));
        assert(holds_uses(progress, file, graph, t, uses_of(token, graph).len() as int));
    }
    assert(holds(progress, file, graph, site, definition, role));
}

/// Every reference that a listed file makes is recorded, in the index of the listed files: that of
/// the file to the module that it is, and that of each token to each declaration that it refers to
/// in the first expansion in which it refers to any.
pub proof fn law_references_are_recorded(
    analysis: Analysis,
    ids: Seq<FileId>,
    f: int,
    site: Site,
    definition: DefinitionFacts,
    role: StaticReferenceRole,
)
    requires
        index_of_files(analysis, ids).tokens.len() <= usize::MAX,
        is_first_of_file(analysis.files@, f),
        ids.contains(analysis.files@[f].file_id),
        analysis.files@[f].displayed,
        is_mention(analysis.files@[f], true, site, definition, role),
    ensures
        records(index_of_files(analysis, ids), analysis.files@[f], site, definition, role),
{
    let facts = analysis.files@;
    lemma_files(true, facts, ids, ids.len() as int);
    let i = choose|i: int| 0 <= i < ids.len() && ids[i] == facts[f].file_id;
    assert(ids[i] == facts[f].file_id);
    let built = with_files(empty_index(true), facts, ids, ids.len() as int);
    assert(is_complete_for(built, facts[f], true));
    lemma_records(built, facts[f], site, definition, role);
    let index = index_of_files(analysis, ids);
    let k = choose|k: int|
        0 <= k < built.files.len() && is_entry_of(
            #[trigger] built.files[k],
            facts[f],
            built.graph,
        ) && is_recorded(
            built.tokens,
            built.def_map,
            built.files[k].tokens,
            facts[f],
            built.graph,
            site,
            definition,
            role,
        );
    assert(index.files[k] == built.files[k]);
}

/// The index of a workspace records every reference that a file of an indexed module makes.
pub proof fn law_workspace_references_are_recorded(
    analysis: Analysis,
    config: VendoredLibrariesConfig,
    graph: bool,
    f: int,
    site: Site,
    definition: DefinitionFacts,
    role: StaticReferenceRole,
)
    requires
        index_of(analysis, config, graph).tokens.len() <= usize::MAX,
        is_first_of_file(analysis.files@, f),
        source_files(analysis.roots@, config).contains(analysis.files@[f].file_id),
        analysis.files@[f].displayed,
        is_mention(analysis.files@[f], graph, site, definition, role),
    ensures
        records(index_of(analysis, config, graph), analysis.files@[f], site, definition, role),
{
    let facts = analysis.files@;
    let modules = visited(analysis.roots@);
    let ids = indexed_files(modules, config, modules.len() as int);
    law_source_files_are_distinct(analysis.roots@, config);
    lemma_indexed_files(modules, config, modules.len() as int, facts[f].file_id);
    lemma_files(graph, facts, ids, ids.len() as int);
    let i = choose|i: int| 0 <= i < ids.len() && ids[i] == facts[f].file_id;
    assert(ids[i] == facts[f].file_id);
    let built = with_files(empty_index(graph), facts, ids, ids.len() as int);
    assert(is_complete_for(built, facts[f], graph));
    lemma_records(built, facts[f], site, definition, role);
    let index = index_of(analysis, config, graph);
    let k = choose|k: int|
        0 <= k < built.files.len() && is_entry_of(
            #[trigger] built.files[k],
            facts[f],
            built.graph,
        ) && is_recorded(
            built.tokens,
            built.def_map,
            built.files[k].tokens,
            facts[f],
            built.graph,
            site,
            definition,
            role,
        );
    assert(index.files[k] == built.files[k]);
}

/// Everything that the index of some files tells comes from the files: each declaration is one that a
/// file refers to and is described as it is, and each of its references is made by a file.
pub proof fn law_index_tells_what_files_say(analysis: Analysis, ids: Seq<FileId>, n: int)
    requires
        index_of_files(analysis, ids).tokens.len() <= usize::MAX,
        0 <= n < index_of_files(analysis, ids).tokens.len(),
    ensures
        ({
            let index = index_of_files(analysis, ids);
            &&& is_described(index.tokens, index.def_map, analysis.files@, true, n)
            &&& forall|j: int|
                0 <= j < index.tokens[n].references.len() ==> #[trigger] is_made(
                    index.tokens,
                    index.def_map,
                    analysis.files@,
                    true,
                    n,
                    j,
                )
        }),
{
    let facts = analysis.files@;
    lemma_files(true, facts, ids, ids.len() as int);
    let built = with_files(empty_index(true), facts, ids, ids.len() as int);
    lemma_founded(built, facts, true, n);
}

/// Everything that the index of a workspace tells of declarations comes from its files.
pub proof fn law_workspace_index_tells_what_files_say(
    analysis: Analysis,
    config: VendoredLibrariesConfig,
    graph: bool,
    n: int,
)
    requires
        index_of(analysis, config, graph).tokens.len() <= usize::MAX,
        0 <= n < index_of(analysis, config, graph).tokens.len(),
    ensures
        ({
            let index = index_of(analysis, config, graph);
            &&& is_described(index.tokens, index.def_map, analysis.files@, graph, n)
            &&& forall|j: int|
                0 <= j < index.tokens[n].references.len() ==> #[trigger] is_made(
                    index.tokens,
                    index.def_map,
                    analysis.files@,
                    graph,
                    n,
                    j,
                )
        }),
{
    let modules = visited(analysis.roots@);
    let ids = indexed_files(modules, config, modules.len() as int);
    let facts = analysis.files@;
    lemma_files(graph, facts, ids, ids.len() as int);
    let built = with_files(empty_index(graph), facts, ids, ids.len() as int);
    lemma_founded(built, facts, graph, n);
}

} // verus!
