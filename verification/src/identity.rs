//! Identities of declarations, which do not change when declarations move.

use vstd::prelude::*;
use vstd::string::*;
use vstd::utf8::encode_utf8;

use crate::digest::{digest_bytes, digest_of};
use crate::files::{FileId, FileRange, TextRange};
use crate::moniker::{
    Moniker, MonikerDescriptor, MonikerResult, SymbolInformationKind, descriptor_name,
    descriptor_text, kind_name, kind_text,
};
use crate::plain::Plain;
use crate::sorting::{lemma_sorted_unique, lemma_stable_sorted, stable_sort, stable_sorted};
use crate::text::{
    decimal, decimal_text, join, join_texts, lemma_decimal_digits, lemma_decimal_injective,
    normalize_path, normalized,
};

verus! {

/// A labelled value: both stand behind their lengths in bytes, so that no two of them run together.
pub open spec fn component(label: Seq<char>, value: Seq<char>) -> Seq<char> {
    "|"@ + decimal(encode_utf8(label).len()) + ":"@ + label + "="@ + decimal(
        encode_utf8(value).len(),
    ) + ":"@ + value
}

/// Appends a labelled value.
pub fn append_component(id: &mut String, label: &str, value: &str)
    ensures
        final(id)@ == old(id)@ + component(label@, value@),
{
    let ghost start = id@;
    id.append("|");
    id.append(decimal_text(label.as_bytes().len() as u64).as_str());
    id.append(":");
    id.append(label);
    id.append("=");
    id.append(decimal_text(value.as_bytes().len() as u64).as_str());
    id.append(":");
    id.append(value);
    assert(id@ =~= start + component(label@, value@));
}

/// An optional text, or the empty one.
pub open spec fn text_or_empty(text: Option<Seq<char>>) -> Seq<char> {
    match text {
        Some(text) => text,
        None => Seq::empty(),
    }
}

fn or_empty(text: &Option<String>) -> (result: String)
    ensures
        result@ == text_or_empty(text.deep_view()),
{
    match text {
        Some(text) => text.clone(),
        None => {
            let empty = String::new();
            assert(empty@ =~= Seq::<char>::empty());
            empty
        },
    }
}

/// The parts of the path of a declaration, from the first ones on.
pub open spec fn descriptors(parts: Seq<MonikerDescriptor>, count: int) -> Seq<char>
    decreases count,
{
    if count <= 0 {
        Seq::empty()
    } else {
        descriptors(parts, count - 1) + component("kind"@, descriptor_name(parts[count - 1].desc))
            + component("name"@, parts[count - 1].name@)
    }
}

/// What the name of a declaration across packages adds to an identity.
pub open spec fn moniker_components(moniker: Moniker) -> Seq<char> {
    component("package"@, moniker.package_information.name@) + component(
        "version"@,
        text_or_empty(moniker.package_information.version.deep_view()),
    ) + component(
        "repository"@,
        text_or_empty(moniker.package_information.repo.deep_view()),
    ) + component("crate"@, moniker.identifier.crate_name@) + descriptors(
        moniker.identifier.description@,
        moniker.identifier.description@.len() as int,
    )
}

/// Appends the name of a declaration across packages.
pub fn append_moniker(id: &mut String, moniker: &Moniker)
    ensures
        final(id)@ == old(id)@ + moniker_components(*moniker),
{
    let ghost start = id@;
    append_component(id, "package", moniker.package_information.name.as_str());
    append_component(id, "version", or_empty(&moniker.package_information.version).as_str());
    append_component(id, "repository", or_empty(&moniker.package_information.repo).as_str());
    append_component(id, "crate", moniker.identifier.crate_name.as_str());
    let parts = &moniker.identifier.description;
    let ghost before = id@;
    let mut index: usize = 0;
    assert(id@ =~= before + descriptors(parts@, 0));
    while index < parts.len()
        invariant
            index <= parts.len(),
            id@ == before + descriptors(parts@, index as int),
        decreases parts.len() - index,
    {
        append_component(id, "kind", descriptor_text(parts[index].desc));
        append_component(id, "name", parts[index].name.as_str());
        index += 1;
        assert(id@ =~= before + descriptors(parts@, index as int));
    }
    assert(id@ =~= start + moniker_components(*moniker));
}

/// Where the root file of a crate is.
#[derive(Debug, Clone, PartialEq, Eq)]
pub enum RootPath {
    /// It is not known.
    Unavailable,
    /// It is not on disk.
    Virtual(String),
    /// It is on disk.
    Disk {
        path: String,
        /// What is left of the path below the working directory of the crate.
        relative: Option<String>,
        /// The components of the path.
        components: Vec<String>,
    },
}

/// What is known of the root of a crate.
#[derive(Debug, Clone, PartialEq, Eq)]
pub struct CrateRoot {
    /// Whether the crate belongs to the workspace.
    pub is_local: bool,
    pub path: RootPath,
    /// The name of the working directory of the crate.
    pub directory: Option<String>,
    /// The identity that the project model gives to the crate.
    pub graph_identity: Option<String>,
}

/// A crate that another one depends on.
#[derive(Debug, Clone, PartialEq, Eq)]
pub struct CrateDependency {
    pub name: String,
    pub display_name: String,
    pub version: String,
    pub origin: String,
    pub root: CrateRoot,
    pub cfg: String,
}

/// What is known of a crate.
#[derive(Debug, Clone, PartialEq, Eq)]
pub struct CrateFacts {
    pub root: CrateRoot,
    pub display_name: String,
    pub version: String,
    pub origin: String,
    pub edition: String,
    pub cfg: String,
    pub dependencies: Vec<CrateDependency>,
}

/// The last texts of a list.
pub open spec fn last_texts(texts: Seq<Seq<char>>, count: int) -> Seq<Seq<char>> {
    if texts.len() <= count {
        texts
    } else {
        texts.skip(texts.len() - count)
    }
}

/// The key of the root of a crate. It does not depend on where the workspace is.
pub open spec fn root_key(root: CrateRoot) -> Seq<char> {
    if !root.is_local {
        "dependency"@
    } else {
        match root.path {
            RootPath::Unavailable => "unavailable"@,
            RootPath::Virtual(path) => path@,
            RootPath::Disk { path, relative, components } => {
                let directory = match root.directory {
                    Some(name) => name@,
                    None => "workspace"@,
                };
                match root.graph_identity {
                    Some(identity) => identity@ + ";root="@ + match relative {
                        Some(relative) => normalized(relative@),
                        None => normalized(path@),
                    },
                    None => match relative {
                        Some(relative) => directory + "/"@ + normalized(relative@),
                        None => directory + "/"@ + join(
                            last_texts(components.deep_view(), 3),
                            "/"@,
                        ),
                    },
                }
            },
        }
    }
}

fn take_last(texts: &Vec<String>, count: usize) -> (last: Vec<String>)
    ensures
        last.deep_view() == last_texts(texts.deep_view(), count as int),
{
    let ghost all = texts.deep_view();
    if texts.len() <= count {
        return texts.duplicate();
    }
    let start: usize = texts.len() - count;
    let mut last: Vec<String> = Vec::new();
    let mut index: usize = start;
    assert(last.deep_view() =~= all.subrange(start as int, start as int));
    while index < texts.len()
        invariant
            start <= index <= texts.len(),
            all == texts.deep_view(),
            last.deep_view() == all.subrange(start as int, index as int),
        decreases texts.len() - index,
    {
        let ghost before = last.deep_view();
        last.push(texts[index].clone());
        proof {
            assert(all[index as int] == texts@[index as int]@);
            assert(last.deep_view() =~= before.push(all[index as int]));
            assert(last.deep_view() =~= all.subrange(start as int, index + 1));
        }
        index += 1;
    }
    assert(all.subrange(start as int, index as int) =~= all.skip(start as int));
    last
}

/// The key of the root of a crate.
pub fn crate_root_key(root: &CrateRoot) -> (key: String)
    ensures
        key@ == root_key(*root),
{
    if !root.is_local {
        return "dependency".to_owned();
    }
    match &root.path {
        RootPath::Unavailable => "unavailable".to_owned(),
        RootPath::Virtual(path) => path.clone(),
        RootPath::Disk { path, relative, components } => match &root.graph_identity {
            Some(identity) => {
                let below = match relative {
                    Some(relative) => normalize_path(relative.as_str()),
                    None => normalize_path(path.as_str()),
                };
                let mut key = identity.clone();
                key.append(";root=");
                key.append(below.as_str());
                key
            },
            None => {
                let mut key = match &root.directory {
                    Some(name) => name.clone(),
                    None => "workspace".to_owned(),
                };
                let below = match relative {
                    Some(relative) => normalize_path(relative.as_str()),
                    None => join_texts(&take_last(components, 3), "/"),
                };
                key.append("/");
                key.append(below.as_str());
                key
            },
        },
    }
}

/// The text that `std::fmt::Debug` gives for a list of texts.
pub uninterp spec fn list_debug(texts: Seq<Seq<char>>) -> Seq<char>;

/// Formats a list of texts by `std::fmt::Debug`. What the text is, is left to the standard
/// library.
#[verifier::external_body]
fn debug_list(texts: &Vec<String>) -> (text: String)
    ensures
        text@ == list_debug(texts.deep_view()),
{
    format!("{texts:?}")
}

/// The line of a dependency of a crate.
pub open spec fn dependency_line(dependency: CrateDependency) -> Seq<char> {
    dependency.name@ + "="@ + dependency.display_name@ + "@"@ + dependency.version@ + ":"@
        + dependency.origin@ + ":"@ + root_key(dependency.root) + ":"@ + dependency.cfg@
}

/// The lines of the dependencies of a crate.
pub open spec fn dependency_lines(dependencies: Seq<CrateDependency>) -> Seq<Seq<char>> {
    Seq::new(dependencies.len(), |i: int| dependency_line(dependencies[i]))
}

/// The context in which a crate is compiled.
pub open spec fn crate_context(krate: CrateFacts) -> Seq<char> {
    "root="@ + root_key(krate.root) + ";name="@ + krate.display_name@ + ";version="@
        + krate.version@ + ";origin="@ + krate.origin@ + ";edition="@ + krate.edition@ + ";cfg="@
        + krate.cfg@ + ";dependencies="@ + list_debug(
        stable_sorted::<String>(dependency_lines(krate.dependencies@)),
    )
}

/// The digest of the context in which a crate is compiled.
pub open spec fn context_digest(krate: CrateFacts) -> Seq<char> {
    digest_of(encode_utf8(crate_context(krate)))
}

fn describe_dependencies(dependencies: &Vec<CrateDependency>) -> (lines: Vec<String>)
    ensures
        lines.deep_view() == dependency_lines(dependencies@),
{
    let ghost expected = dependency_lines(dependencies@);
    let mut lines: Vec<String> = Vec::new();
    let mut index: usize = 0;
    assert(lines.deep_view() =~= expected.take(0));
    while index < dependencies.len()
        invariant
            index <= dependencies.len(),
            expected == dependency_lines(dependencies@),
            lines.deep_view() == expected.take(index as int),
        decreases dependencies.len() - index,
    {
        let dependency = &dependencies[index];
        let mut line = dependency.name.clone();
        line.append("=");
        line.append(dependency.display_name.as_str());
        line.append("@");
        line.append(dependency.version.as_str());
        line.append(":");
        line.append(dependency.origin.as_str());
        line.append(":");
        line.append(crate_root_key(&dependency.root).as_str());
        line.append(":");
        line.append(dependency.cfg.as_str());
        let ghost before = lines.deep_view();
        let ghost added = line@;
        lines.push(line);
        proof {
            assert(added == expected[index as int]);
            assert(lines.deep_view() =~= before.push(added));
            assert(lines.deep_view() =~= expected.take(index + 1));
        }
        index += 1;
    }
    assert(expected.take(index as int) =~= expected);
    lines
}

/// The digest of the context in which a crate is compiled.
pub fn crate_context_digest_for_crate(krate: &CrateFacts) -> (digest: String)
    ensures
        digest@ == context_digest(*krate),
{
    let mut dependencies = describe_dependencies(&krate.dependencies);
    stable_sort(&mut dependencies);
    let mut context = "root=".to_owned();
    context.append(crate_root_key(&krate.root).as_str());
    context.append(";name=");
    context.append(krate.display_name.as_str());
    context.append(";version=");
    context.append(krate.version.as_str());
    context.append(";origin=");
    context.append(krate.origin.as_str());
    context.append(";edition=");
    context.append(krate.edition.as_str());
    context.append(";cfg=");
    context.append(krate.cfg.as_str());
    context.append(";dependencies=");
    context.append(debug_list(&dependencies).as_str());
    digest_bytes(context.as_str().as_bytes())
}

/// A name in a source file.
#[derive(Debug, Clone, PartialEq, Eq)]
pub struct NameSite {
    pub text: String,
    /// The kind of the node that the name belongs to.
    pub parent_kind: Option<String>,
    pub range: TextRange,
}

/// A syntax node on the way from a declaration to the root of its file.
#[derive(Debug, Clone, PartialEq, Eq)]
pub struct SyntaxStep {
    pub kind: String,
    pub range: TextRange,
    pub is_root: bool,
    /// The kinds of the nodes before it that have the same parent.
    pub earlier: Vec<String>,
}

/// Where a declaration stands in its file.
#[derive(Debug, Clone, PartialEq, Eq)]
pub enum Place {
    /// It has a name: the name, and all names of the file in order.
    Name(NameSite, Vec<NameSite>),
    /// It has none: the nodes from the declaration up to the root.
    Path(Vec<SyntaxStep>),
}

/// The syntax of a declaration.
#[derive(Debug, Clone, PartialEq, Eq)]
pub struct DeclarationSyntax {
    pub file_id: FileId,
    /// The range of the whole file.
    pub root: TextRange,
    /// The declaration around this one.
    pub owner: Option<FileRange>,
    pub place: Place,
}

/// The range in which a declaration is told from others: that of the declaration around it, if
/// this is in the same file, else the whole file.
pub open spec fn scope_of(syntax: DeclarationSyntax) -> TextRange {
    match syntax.owner {
        Some(owner) => if owner.file_id == syntax.file_id {
            owner.range
        } else {
            syntax.root
        },
        None => syntax.root,
    }
}

fn find_scope(syntax: &DeclarationSyntax) -> (scope: TextRange)
    ensures
        scope == scope_of(*syntax),
{
    match syntax.owner {
        Some(owner) => if owner.file_id == syntax.file_id {
            owner.range
        } else {
            syntax.root
        },
        None => syntax.root,
    }
}

/// Whether a name could be taken for another one: it has the same text and belongs to a node of
/// the same kind in the same scope.
pub open spec fn is_namesake(name: NameSite, scope: TextRange, other: NameSite) -> bool {
    &&& scope.encloses(other.range)
    &&& other.text@ == name.text@
    &&& other.parent_kind.deep_view() == name.parent_kind.deep_view()
}

/// The number of namesakes, from a position on, that come before a name.
pub open spec fn ordinal_from(
    name: NameSite,
    scope: TextRange,
    names: Seq<NameSite>,
    from: int,
) -> nat
    decreases names.len() - from,
{
    if from < 0 || from >= names.len() {
        0
    } else if !is_namesake(name, scope, names[from]) {
        ordinal_from(name, scope, names, from + 1)
    } else if names[from].range == name.range {
        0
    } else {
        1 + ordinal_from(name, scope, names, from + 1)
    }
}

fn count_namesakes(name: &NameSite, scope: TextRange, names: &Vec<NameSite>) -> (ordinal: usize)
    ensures
        ordinal == ordinal_from(*name, scope, names@, 0),
{
    let mut ordinal: usize = 0;
    let mut index: usize = 0;
    while index < names.len()
        invariant
            ordinal <= index <= names.len(),
            ordinal_from(*name, scope, names@, 0) == ordinal + ordinal_from(
                *name,
                scope,
                names@,
                index as int,
            ),
        decreases names.len() - index,
    {
        let other = &names[index];
        if scope.contains_range(other.range) && other.text.same(&name.text)
            && other.parent_kind.same(&name.parent_kind) {
            if other.range == name.range {
                return ordinal;
            }
            ordinal += 1;
        }
        index += 1;
    }
    ordinal
}

/// The number of the first texts that are the given one.
pub open spec fn occurrences(texts: Seq<Seq<char>>, text: Seq<char>, count: int) -> nat
    decreases count,
{
    if count <= 0 {
        0
    } else {
        occurrences(texts, text, count - 1) + if texts[count - 1] == text {
            1nat
        } else {
            0nat
        }
    }
}

fn count_occurrences(texts: &Vec<String>, text: &String) -> (count: usize)
    ensures
        count == occurrences(texts.deep_view(), text@, texts.deep_view().len() as int),
{
    let ghost all = texts.deep_view();
    let mut count: usize = 0;
    let mut index: usize = 0;
    while index < texts.len()
        invariant
            count <= index <= texts.len(),
            all == texts.deep_view(),
            count == occurrences(all, text@, index as int),
        decreases texts.len() - index,
    {
        assert(all[index as int] == texts@[index as int]@);
        if texts[index].same(text) {
            count += 1;
        }
        index += 1;
    }
    count
}

/// A node on the way to the root: its kind, and the number of nodes of that kind before it.
pub open spec fn step_text(step: SyntaxStep) -> Seq<char> {
    step.kind@ + ":"@ + decimal(
        occurrences(step.earlier.deep_view(), step.kind@, step.earlier.deep_view().len() as int),
    )
}

/// The nodes from a scope down to a declaration, without the scope itself.
pub open spec fn steps_to(steps: Seq<SyntaxStep>, scope: TextRange, from: int) -> Seq<Seq<char>>
    decreases steps.len() - from,
{
    if from < 0 || from >= steps.len() || steps[from].is_root || steps[from].range == scope {
        Seq::empty()
    } else {
        steps_to(steps, scope, from + 1).push(step_text(steps[from]))
    }
}

fn describe_steps(steps: &Vec<SyntaxStep>, scope: TextRange, from: usize) -> (texts: Vec<String>)
    requires
        from <= steps.len(),
    ensures
        texts.deep_view() == steps_to(steps@, scope, from as int),
    decreases steps.len() - from,
{
    if from >= steps.len() || steps[from].is_root || steps[from].range == scope {
        let texts: Vec<String> = Vec::new();
        assert(texts.deep_view() =~= Seq::<Seq<char>>::empty());
        return texts;
    }
    let mut texts = describe_steps(steps, scope, from + 1);
    let ghost before = texts.deep_view();
    let step = &steps[from];
    let mut text = step.kind.clone();
    text.append(":");
    text.append(decimal_text(count_occurrences(&step.earlier, &step.kind) as u64).as_str());
    let ghost added = text@;
    texts.push(text);
    assert(texts.deep_view() =~= before.push(added));
    texts
}

/// The text that stands for where a declaration stands in its scope.
pub open spec fn syntax_text(syntax: Option<DeclarationSyntax>) -> Seq<char> {
    match syntax {
        None => "unavailable"@,
        Some(syntax) => match syntax.place {
            Place::Name(name, names) => (match name.parent_kind {
                Some(kind) => kind@,
                None => "NAME"@,
            }) + ":"@ + decimal(ordinal_from(name, scope_of(syntax), names@, 0)),
            Place::Path(steps) => join(steps_to(steps@, scope_of(syntax), 0), "/"@),
        },
    }
}

fn describe_syntax(syntax: &Option<DeclarationSyntax>) -> (text: String)
    ensures
        text@ == syntax_text(*syntax),
{
    match syntax {
        None => "unavailable".to_owned(),
        Some(syntax) => {
            let scope = find_scope(syntax);
            match &syntax.place {
                Place::Name(name, names) => {
                    let ordinal = count_namesakes(name, scope, names);
                    let mut text = match &name.parent_kind {
                        Some(kind) => kind.clone(),
                        None => "NAME".to_owned(),
                    };
                    text.append(":");
                    text.append(decimal_text(ordinal as u64).as_str());
                    text
                },
                Place::Path(steps) => join_texts(&describe_steps(steps, scope, 0), "/"),
            }
        },
    }
}

/// What a declaration that has no name across packages adds to an identity.
pub open spec fn local_components(
    kind: SymbolInformationKind,
    name: Option<Seq<char>>,
    syntax: Option<DeclarationSyntax>,
) -> Seq<char> {
    component("local-kind"@, kind_name(kind)) + component("local-name"@, text_or_empty(name))
        + component("syntax"@, syntax_text(syntax))
}

/// Appends what tells a declaration without a name across packages from others.
pub fn append_local_identity(
    id: &mut String,
    kind: SymbolInformationKind,
    name: &Option<String>,
    syntax: &Option<DeclarationSyntax>,
)
    ensures
        final(id)@ == old(id)@ + local_components(kind, name.deep_view(), *syntax),
{
    let ghost start = id@;
    append_component(id, "local-kind", kind_text(kind));
    append_component(id, "local-name", or_empty(name).as_str());
    append_component(id, "syntax", describe_syntax(syntax).as_str());
    assert(id@ =~= start + local_components(kind, name.deep_view(), *syntax));
}

/// What is known of a declaration.
#[derive(Debug)]
pub struct Declaration {
    pub kind: SymbolInformationKind,
    pub name: Option<String>,
    /// The crate of the declaration.
    pub krate: Option<CrateFacts>,
    /// Where the declaration stands, if that is known.
    pub syntax: Option<DeclarationSyntax>,
    /// The declaration around this one, as its own crate names it.
    pub owner: Option<Box<NamedDeclaration>>,
    /// The trait or the implementation that the declaration is an item of.
    pub container: Option<Container>,
}

/// A declaration, and its name across packages.
#[derive(Debug)]
pub struct NamedDeclaration {
    pub declaration: Declaration,
    pub moniker: Option<MonikerResult>,
}

/// What a declaration is an item of.
#[derive(Debug)]
pub enum Container {
    /// A trait.
    Trait(Box<NamedDeclaration>),
    /// An implementation for a type, possibly of a trait.
    Impl { self_type: String, implemented: Option<Box<NamedDeclaration>> },
}

/// The digest of the context of a declaration: that of its crate, else that of the crate of the
/// declaration around it.
pub open spec fn declaration_context(declaration: Declaration) -> Seq<char> {
    match declaration.krate {
        Some(krate) => context_digest(krate),
        None => match declaration.owner {
            Some(owner) => match owner.declaration.krate {
                Some(krate) => context_digest(krate),
                None => "builtin"@,
            },
            None => "builtin"@,
        },
    }
}

/// The digest of the context of a declaration.
pub fn crate_context_digest(declaration: &Declaration) -> (digest: String)
    ensures
        digest@ == declaration_context(*declaration),
{
    match &declaration.krate {
        Some(krate) => crate_context_digest_for_crate(krate),
        None => match &declaration.owner {
            Some(owner) => match &owner.declaration.krate {
                Some(krate) => crate_context_digest_for_crate(krate),
                None => "builtin".to_owned(),
            },
            None => "builtin".to_owned(),
        },
    }
}

/// What the name of a declaration adds to its identity.
pub open spec fn name_components(declaration: Declaration, moniker: Option<MonikerResult>) -> Seq<
    char,
>
    decreases declaration, 0int,
{
    match moniker {
        Some(MonikerResult::Moniker(moniker)) => moniker_components(moniker),
        Some(MonikerResult::Local { enclosing_moniker }) => (match enclosing_moniker {
            Some(moniker) => moniker_components(moniker),
            None => component("scope"@, "unresolved"@),
        }) + local_components(
            declaration.kind,
            declaration.name.deep_view(),
            declaration.syntax,
        ),
        None => component("scope"@, "builtin-or-unresolved"@) + (match declaration.owner {
            Some(owner) => if owner.declaration.krate is Some {
                component("enclosing-owner"@, identity_of(owner.declaration, owner.moniker))
            } else {
                Seq::empty()
            },
            None => Seq::empty(),
        }) + local_components(
            declaration.kind,
            declaration.name.deep_view(),
            declaration.syntax,
        ),
    }
}

/// What being an item of a trait or of an implementation adds to the identity of a declaration.
pub open spec fn container_components(declaration: Declaration) -> Seq<char>
    decreases declaration, 0int,
{
    match declaration.container {
        None => Seq::empty(),
        Some(Container::Trait(owner)) => component(
            "assoc-owner"@,
            identity_of(owner.declaration, owner.moniker),
        ),
        Some(Container::Impl { self_type, implemented }) => component("impl-self"@, self_type@)
            + component(
            "implemented-trait"@,
            match implemented {
                Some(owner) => identity_of(owner.declaration, owner.moniker),
                None => "inherent"@,
            },
        ),
    }
}

/// The identity of a declaration.
pub open spec fn identity_of(declaration: Declaration, moniker: Option<MonikerResult>) -> Seq<char>
    decreases declaration, 1int,
{
    "rust-hir-v1"@ + component("crate-context"@, declaration_context(declaration))
        + name_components(declaration, moniker) + container_components(declaration)
}

#[verifier::rlimit(40)]
#[verifier::spinoff_prover]
fn append_name(id: &mut String, declaration: &Declaration, moniker: &Option<MonikerResult>)
    ensures
        final(id)@ == old(id)@ + name_components(*declaration, *moniker),
    decreases declaration, 0int,
{
    let ghost start = id@;
    let ghost expected = name_components(*declaration, *moniker);
    match moniker {
        Some(MonikerResult::Moniker(moniker)) => append_moniker(id, moniker),
        Some(MonikerResult::Local { enclosing_moniker }) => {
            match enclosing_moniker {
                Some(moniker) => append_moniker(id, moniker),
                None => append_component(id, "scope", "unresolved"),
            }
            append_local_identity(id, declaration.kind, &declaration.name, &declaration.syntax);
            assert(id@ =~= start + expected);
        },
        None => {
            append_component(id, "scope", "builtin-or-unresolved");
            match &declaration.owner {
                Some(owner) => {
                    if owner.declaration.krate.is_some() {
                        let enclosing = stable_definition_id(&owner.declaration, &owner.moniker);
                        append_component(id, "enclosing-owner", enclosing.as_str());
                    }
                },
                None => {},
            }
            append_local_identity(id, declaration.kind, &declaration.name, &declaration.syntax);
            assert(id@ =~= start + expected);
        },
    }
}

/// Appends what being an item of a trait or of an implementation adds to an identity.
pub fn append_assoc_identity(id: &mut String, declaration: &Declaration)
    ensures
        final(id)@ == old(id)@ + container_components(*declaration),
    decreases declaration, 0int,
{
    let ghost start = id@;
    match &declaration.container {
        None => {},
        Some(Container::Trait(owner)) => {
            let identity = stable_definition_id(&owner.declaration, &owner.moniker);
            append_component(id, "assoc-owner", identity.as_str());
        },
        Some(Container::Impl { self_type, implemented }) => {
            append_component(id, "impl-self", self_type.as_str());
            let identity = match implemented {
                Some(owner) => stable_definition_id(&owner.declaration, &owner.moniker),
                None => "inherent".to_owned(),
            };
            append_component(id, "implemented-trait", identity.as_str());
        },
    }
    assert(id@ =~= start + container_components(*declaration));
}

/// The identity of a declaration.
pub fn stable_definition_id(declaration: &Declaration, moniker: &Option<MonikerResult>) -> (id:
    String)
    ensures
        id@ == identity_of(*declaration, *moniker),
    decreases declaration, 1int,
{
    let mut id = "rust-hir-v1".to_owned();
    append_component(&mut id, "crate-context", crate_context_digest(declaration).as_str());
    append_name(&mut id, declaration, moniker);
    append_assoc_identity(&mut id, declaration);
    id
}

/// A number in front of a colon can be told from what follows.
proof fn lemma_number_ends(left: nat, after_left: Seq<char>, right: nat, after_right: Seq<char>)
    requires
        decimal(left) + ":"@ + after_left == decimal(right) + ":"@ + after_right,
    ensures
        left == right,
        after_left == after_right,
{
    reveal_strlit(":");
    lemma_decimal_digits(left);
    lemma_decimal_digits(right);
    let one = decimal(left) + ":"@ + after_left;
    let other = decimal(right) + ":"@ + after_right;
    assert(one[decimal(left).len() as int] == ':');
    assert(other[decimal(right).len() as int] == ':');
    if decimal(left).len() < decimal(right).len() {
        assert(other[decimal(left).len() as int] == decimal(right)[decimal(left).len() as int]);
    }
    if decimal(right).len() < decimal(left).len() {
        assert(one[decimal(right).len() as int] == decimal(left)[decimal(right).len() as int]);
    }
    assert(one.take(decimal(left).len() as int) =~= decimal(left));
    assert(other.take(decimal(right).len() as int) =~= decimal(right));
    lemma_decimal_injective(left, right);
    assert(one.skip(decimal(left).len() as int + 1) =~= after_left);
    assert(other.skip(decimal(right).len() as int + 1) =~= after_right);
}

/// A text whose length in bytes is known can be told from what follows.
proof fn lemma_text_ends(
    left: Seq<char>,
    after_left: Seq<char>,
    right: Seq<char>,
    after_right: Seq<char>,
)
    requires
        left + after_left == right + after_right,
        encode_utf8(left).len() == encode_utf8(right).len(),
    ensures
        left == right,
        after_left == after_right,
    decreases left.len(),
{
    if left.len() == 0 || right.len() == 0 {
        assert(left.len() == 0 && right.len() == 0);
        assert(left + after_left =~= after_left);
        assert(right + after_right =~= after_right);
        assert(left =~= right);
    } else {
        let one = left + after_left;
        let other = right + after_right;
        assert(one[0] == left[0] && other[0] == right[0]);
        assert(one.drop_first() =~= left.drop_first() + after_left);
        assert(other.drop_first() =~= right.drop_first() + after_right);
        lemma_text_ends(left.drop_first(), after_left, right.drop_first(), after_right);
        assert(left =~= seq![left[0]] + left.drop_first());
        assert(right =~= seq![right[0]] + right.drop_first());
    }
}

proof fn lemma_component_parts(label: Seq<char>, value: Seq<char>, rest: Seq<char>)
    ensures
        (component(label, value) + rest).skip("|"@.len() as int) == decimal(
            encode_utf8(label).len(),
        ) + ":"@ + (label + ("="@ + (decimal(encode_utf8(value).len()) + ":"@ + (value + rest)))),
{
    let whole = component(label, value) + rest;
    let parts = decimal(encode_utf8(label).len()) + ":"@ + (label + ("="@ + (decimal(
        encode_utf8(value).len(),
    ) + ":"@ + (value + rest))));
    assert(whole =~= "|"@ + parts);
    assert(("|"@ + parts).skip("|"@.len() as int) =~= parts);
}

/// Labelled values do not run together: where two texts that start with labelled values are the
/// same, so are the labels, the values and what follows.
pub proof fn law_components_are_unambiguous(
    label: Seq<char>,
    value: Seq<char>,
    rest: Seq<char>,
    other_label: Seq<char>,
    other_value: Seq<char>,
    other_rest: Seq<char>,
)
    requires
        component(label, value) + rest == component(other_label, other_value) + other_rest,
    ensures
        label == other_label,
        value == other_value,
        rest == other_rest,
{
    lemma_component_parts(label, value, rest);
    lemma_component_parts(other_label, other_value, other_rest);
    let tail = decimal(encode_utf8(value).len()) + ":"@ + (value + rest);
    let other_tail = decimal(encode_utf8(other_value).len()) + ":"@ + (other_value + other_rest);
    lemma_number_ends(
        encode_utf8(label).len(),
        label + ("="@ + tail),
        encode_utf8(other_label).len(),
        other_label + ("="@ + other_tail),
    );
    lemma_text_ends(label, "="@ + tail, other_label, "="@ + other_tail);
    assert(("="@ + tail).skip("="@.len() as int) =~= tail);
    assert(("="@ + other_tail).skip("="@.len() as int) =~= other_tail);
    lemma_number_ends(
        encode_utf8(value).len(),
        value + rest,
        encode_utf8(other_value).len(),
        other_value + other_rest,
    );
    lemma_text_ends(value, rest, other_value, other_rest);
}

/// The identity of a declaration that is known across packages does not depend on where it stands.
pub proof fn law_identity_ignores_syntax(
    declaration: Declaration,
    syntax: Option<DeclarationSyntax>,
    moniker: Moniker,
)
    ensures
        identity_of(
            (Declaration { syntax, ..declaration }),
            Some(MonikerResult::Moniker(moniker)),
        ) == identity_of(declaration, Some(MonikerResult::Moniker(moniker))),
{
}

/// The context of a crate does not depend on the order in which its dependencies are listed.
pub proof fn law_context_ignores_dependency_order(krate: CrateFacts, other: CrateFacts)
    requires
        dependency_lines(krate.dependencies@).to_multiset() == dependency_lines(
            other.dependencies@,
        ).to_multiset(),
    ensures
        context_digest((CrateFacts { dependencies: other.dependencies, ..krate }))
            == context_digest(krate),
{
    let lines = dependency_lines(krate.dependencies@);
    let other_lines = dependency_lines(other.dependencies@);
    lemma_stable_sorted::<String>(lines);
    lemma_stable_sorted::<String>(other_lines);
    lemma_sorted_unique::<String>(
        stable_sorted::<String>(lines),
        stable_sorted::<String>(other_lines),
    );
}

} // verus!
