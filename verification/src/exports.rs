//! Which declarations are visible from outside, and under which names.

use vstd::prelude::*;
use vstd::string::*;

use crate::files::{FileRange, TextRange};
use crate::identity::{
    CrateFacts, Declaration, append_component, component, identity_of, stable_definition_id,
};
use crate::moniker::{MonikerDescriptor, MonikerResult};
use crate::plain::Plain;
use crate::roles::{Ancestor, NodeKind};
use crate::static_index::{StaticExportData, StaticExportDataModel};
use crate::text::{join, join_texts};

verus! {

/// The names along the path of a declaration.
pub open spec fn part_names(parts: Seq<MonikerDescriptor>) -> Seq<Seq<char>> {
    Seq::new(parts.len(), |i: int| parts[i].name@)
}

fn collect_names(parts: &Vec<MonikerDescriptor>) -> (names: Vec<String>)
    ensures
        names.deep_view() == part_names(parts@),
{
    let mut names: Vec<String> = Vec::new();
    let mut index: usize = 0;
    while index < parts.len()
        invariant
            index <= parts.len(),
            names.len() == index,
            forall|i: int| 0 <= i < index ==> (#[trigger] names@[i])@ == parts@[i].name@,
        decreases parts.len() - index,
    {
        names.push(parts[index].name.clone());
        index += 1;
    }
    assert(names.deep_view() =~= part_names(parts@));
    names
}

/// The name of a declaration with the names of the declarations around it. A declaration that is
/// known across packages has it from there; another one adds its own name to that of the
/// declaration around it.
pub open spec fn full_name(moniker: Option<MonikerResult>, name: Option<Seq<char>>) -> Option<
    Seq<char>,
> {
    match moniker {
        Some(MonikerResult::Moniker(moniker)) => {
            let parts = part_names(moniker.identifier.description@);
            if parts.len() == 0 {
                None
            } else {
                Some(join(parts, "::"@))
            }
        },
        Some(MonikerResult::Local { enclosing_moniker }) => match name {
            Some(name) => Some(
                join(
                    (match enclosing_moniker {
                        Some(moniker) => part_names(moniker.identifier.description@),
                        None => Seq::empty(),
                    }).push(name),
                    "::"@,
                ),
            ),
            None => None,
        },
        None => name,
    }
}

/// The name of a declaration with the names of the declarations around it.
pub fn qualified_name(moniker: &Option<MonikerResult>, name: &Option<String>) -> (result: Option<
    String,
>)
    ensures
        result.deep_view() == full_name(*moniker, name.deep_view()),
{
    match moniker {
        Some(MonikerResult::Moniker(moniker)) => {
            let parts = collect_names(&moniker.identifier.description);
            if parts.len() == 0 {
                None
            } else {
                Some(join_texts(&parts, "::"))
            }
        },
        Some(MonikerResult::Local { enclosing_moniker }) => {
            let name = match name {
                Some(name) => name,
                None => {
                    return None;
                },
            };
            let mut parts = match enclosing_moniker {
                Some(moniker) => collect_names(&moniker.identifier.description),
                None => {
                    let parts: Vec<String> = Vec::new();
                    assert(parts.deep_view() =~= Seq::<Seq<char>>::empty());
                    parts
                },
            };
            let ghost before = parts.deep_view();
            parts.push(name.clone());
            assert(parts.deep_view() =~= before.push(name@));
            Some(join_texts(&parts, "::"))
        },
        None => name.duplicate(),
    }
}

/// The visibilities of a declaration and of those around it, from the inside out. `true` stands
/// for public; a declaration that has no visibility of its own has none.
#[derive(Debug, Clone, PartialEq, Eq)]
pub struct VisibilityChain {
    pub own: Option<bool>,
    pub owners: Vec<Option<bool>>,
}

/// Whether a declaration is public, and none around it is less.
pub open spec fn is_public_chain(chain: VisibilityChain) -> bool {
    &&& chain.own == Some(true)
    &&& forall|i: int| 0 <= i < chain.owners@.len() ==> chain.owners@[i] != Some(false)
}

/// Whether a declaration is public, and none around it is less.
pub fn has_public_visibility_chain(chain: &VisibilityChain) -> (public: bool)
    ensures
        public == is_public_chain(*chain),
{
    match chain.own {
        Some(true) => {},
        _ => {
            return false;
        },
    }
    let mut index: usize = 0;
    while index < chain.owners.len()
        invariant
            index <= chain.owners.len(),
            forall|i: int| 0 <= i < index ==> chain.owners@[i] != Some(false),
        decreases chain.owners.len() - index,
    {
        match chain.owners[index] {
            Some(false) => {
                return false;
            },
            _ => {},
        }
        index += 1;
    }
    true
}

/// What decides whether a declaration can be used from outside.
#[derive(Debug, Clone, PartialEq, Eq)]
pub struct Visibility {
    pub chain: VisibilityChain,
    /// The type that the declaration is implemented for, where it is an item of an
    /// implementation for a declared type.
    pub implementor: Option<VisibilityChain>,
}

/// Whether a declaration can be used from outside: it is public all the way, and so is the type
/// that it is implemented for.
pub open spec fn is_visible(visibility: Visibility) -> bool {
    &&& is_public_chain(visibility.chain)
    &&& match visibility.implementor {
        Some(chain) => is_public_chain(chain),
        None => true,
    }
}

/// Whether a declaration can be used from outside.
pub fn is_effectively_exported(visibility: &Visibility) -> (exported: bool)
    ensures
        exported == is_visible(*visibility),
{
    if !has_public_visibility_chain(&visibility.chain) {
        return false;
    }
    match &visibility.implementor {
        Some(chain) => has_public_visibility_chain(chain),
        None => true,
    }
}

/// A crate that a file belongs to.
#[derive(Debug, Clone, PartialEq, Eq)]
pub struct FileCrate {
    pub facts: CrateFacts,
    pub name: Option<String>,
}

/// A module, as the crates of a file name it.
#[derive(Debug)]
pub struct ModuleScope {
    pub declaration: Declaration,
    /// The name of the module across packages, as each of the crates gives it.
    pub monikers: Vec<Option<MonikerResult>>,
    pub name: Option<String>,
}

/// What a crate, if there is one, gives as a name across packages.
pub open spec fn named_by(monikers: Seq<Option<MonikerResult>>, krate: Option<int>) -> Option<
    MonikerResult,
> {
    match krate {
        Some(at) => if 0 <= at < monikers.len() {
            monikers[at]
        } else {
            None
        },
        None => None,
    }
}

/// What a crate, if there is one, gives as a name across packages.
pub fn moniker_for(monikers: &Vec<Option<MonikerResult>>, krate: Option<usize>) -> (moniker:
    &Option<MonikerResult>)
    ensures
        *moniker == named_by(
            monikers@,
            match krate {
                Some(at) => Some(at as int),
                None => None,
            },
        ),
{
    match krate {
        Some(at) => if at < monikers.len() {
            &monikers[at]
        } else {
            &None
        },
        None => &None,
    }
}

/// The first use tree from a position on that holds a range.
pub open spec fn use_tree_from(ancestors: Seq<Ancestor>, range: TextRange, from: int) -> Option<
    Ancestor,
>
    decreases ancestors.len() - from,
{
    if from < 0 || from >= ancestors.len() {
        None
    } else if ancestors[from].kind == NodeKind::UseTree && ancestors[from].range.encloses(range) {
        Some(ancestors[from])
    } else {
        use_tree_from(ancestors, range, from + 1)
    }
}

fn find_use_tree(ancestors: &Vec<Ancestor>, range: TextRange) -> (found: Option<&Ancestor>)
    ensures
        match found {
            Some(tree) => use_tree_from(ancestors@, range, 0) == Some(*tree),
            None => use_tree_from(ancestors@, range, 0) is None,
        },
{
    let mut index: usize = 0;
    while index < ancestors.len()
        invariant
            index <= ancestors.len(),
            use_tree_from(ancestors@, range, 0) == use_tree_from(ancestors@, range, index as int),
        decreases ancestors.len() - index,
    {
        if ancestors[index].kind == NodeKind::UseTree && ancestors[index].range.contains_range(
            range,
        ) {
            return Some(&ancestors[index]);
        }
        index += 1;
    }
    None
}

/// The name under which a use tree exports a declaration, and where it stands: what the tree
/// renames it to, else its own name.
pub open spec fn alias_of(tree: Ancestor, target: Option<Seq<char>>, range: TextRange) -> Option<
    (Seq<char>, TextRange),
> {
    match tree.rename {
        Some((alias, alias_range)) => Some((alias@, alias_range)),
        None => match target {
            Some(name) => Some((name, range)),
            None => None,
        },
    }
}

/// The name of the module that exports, or else that of its crate.
pub open spec fn exporter_name(scope: ModuleScope, krate: Option<int>, name: Option<Seq<char>>) -> Seq<
    char,
> {
    match full_name(named_by(scope.monikers@, krate), scope.name.deep_view()) {
        Some(name) => name,
        None => match name {
            Some(name) => name,
            None => Seq::empty(),
        },
    }
}

/// A declaration under the name under which a module exports it.
pub open spec fn exported_under(
    scope: ModuleScope,
    krate: Option<int>,
    crate_name: Option<Seq<char>>,
    alias: Seq<char>,
    alias_range: FileRange,
    target_id: Seq<char>,
) -> StaticExportDataModel {
    let exporter = identity_of(scope.declaration, named_by(scope.monikers@, krate));
    let module = exporter_name(scope, krate, crate_name);
    StaticExportDataModel {
        exporter,
        alias_id: "rust-export-v1"@ + component("exporter"@, exporter) + component("alias"@, alias)
            + component("target"@, target_id),
        alias,
        qualified_name: if module.len() == 0 {
            alias
        } else {
            module + "::"@ + alias
        },
        alias_range,
    }
}

/// What a reference exports. There is an export only where the crate and the module of the
/// reference are known, a use tree holds it, and there is a name for it.
pub open spec fn export_of(
    crates: Seq<FileCrate>,
    krate: Option<int>,
    scope: Option<ModuleScope>,
    target: Option<Seq<char>>,
    target_id: Seq<char>,
    at: FileRange,
    ancestors: Seq<Ancestor>,
) -> Option<StaticExportDataModel> {
    match (krate, scope, use_tree_from(ancestors, at.range, 0)) {
        (Some(number), Some(scope), Some(tree)) => if 0 <= number < crates.len() {
            match alias_of(tree, target, at.range) {
                Some((alias, range)) => Some(
                    exported_under(
                        scope,
                        krate,
                        crates[number].name.deep_view(),
                        alias,
                        FileRange { file_id: at.file_id, range },
                        target_id,
                    ),
                ),
                None => None,
            }
        } else {
            None
        },
        _ => None,
    }
}

/// What a reference exports.
pub fn export_data(
    crates: &Vec<FileCrate>,
    krate: Option<usize>,
    scope: &Option<ModuleScope>,
    target: &Option<String>,
    target_id: &str,
    at: FileRange,
    ancestors: &Vec<Ancestor>,
) -> (export: Option<StaticExportData>)
    ensures
        export.deep_view() == export_of(
            crates@,
            match krate {
                Some(number) => Some(number as int),
                None => None,
            },
            *scope,
            target.deep_view(),
            target_id@,
            at,
            ancestors@,
        ),
{
    let number = match krate {
        Some(number) => number,
        None => {
            return None;
        },
    };
    if number >= crates.len() {
        return None;
    }
    let scope = match scope {
        Some(scope) => scope,
        None => {
            return None;
        },
    };
    let tree = match find_use_tree(ancestors, at.range) {
        Some(tree) => tree,
        None => {
            return None;
        },
    };
    let (alias, alias_range) = match &tree.rename {
        Some(rename) => (rename.0.clone(), rename.1),
        None => match target {
            Some(name) => (name.clone(), at.range),
            None => {
                return None;
            },
        },
    };
    let moniker = moniker_for(&scope.monikers, krate);
    let exporter = stable_definition_id(&scope.declaration, moniker);
    let module_name = match qualified_name(moniker, &scope.name) {
        Some(name) => name,
        None => match &crates[number].name {
            Some(name) => name.clone(),
            None => {
                let empty = String::new();
                assert(empty@ =~= Seq::<char>::empty());
                empty
            },
        },
    };
    let qualified_name = if module_name.as_str().unicode_len() == 0 {
        alias.clone()
    } else {
        let mut name = module_name;
        name.append("::");
        name.append(alias.as_str());
        name
    };
    let mut alias_id = "rust-export-v1".to_owned();
    append_component(&mut alias_id, "exporter", exporter.as_str());
    append_component(&mut alias_id, "alias", alias.as_str());
    append_component(&mut alias_id, "target", target_id);
    Some(
        StaticExportData {
            exporter,
            alias_id,
            alias,
            qualified_name,
            alias_range: FileRange { file_id: at.file_id, range: alias_range },
        },
    )
}

} // verus!
