//! What identities and the contexts of crates tell apart.

use vstd::prelude::*;
use vstd::utf8::encode_utf8;

use crate::digest::digest_of;
use crate::exports::{FileCrate, ModuleScope, export_of};
use crate::files::{FileRange, TextRange};
use crate::identity::{
    CrateDependency, CrateFacts, CrateRoot, Declaration, DeclarationSyntax, NameSite, Place,
    component, context_digest, crate_context, declaration_context, dependency_line,
    dependency_lines, identity_of, is_namesake, law_components_are_unambiguous, list_debug,
    ordinal_from, root_key, syntax_text,
};
use crate::interfaces::law_kinds_have_distinct_names;
use crate::moniker::{MonikerDescriptorKind, MonikerResult, descriptor_name};
use crate::roles::Ancestor;
use crate::separation::law_identities_tell_apart;
use crate::sorting::stable_sorted;
use crate::static_index::StaticExportDataModel;
use crate::text::normalized;

verus! {

/// Whether two crates are the same but for one fact about each of them.
pub open spec fn are_same_crates_but(one: CrateFacts, other: CrateFacts, fact: int) -> bool {
    &&& fact == 0 || root_key(one.root) == root_key(other.root)
    &&& fact == 1 || one.display_name@ == other.display_name@
    &&& fact == 2 || one.version@ == other.version@
    &&& fact == 3 || one.origin@ == other.origin@
    &&& fact == 4 || one.edition@ == other.edition@
    &&& fact == 5 || one.cfg@ == other.cfg@
    &&& dependency_lines(one.dependencies@) == dependency_lines(other.dependencies@)
}

proof fn lemma_prefix(before: Seq<char>, one: Seq<char>, other: Seq<char>)
    requires
        before + one == before + other,
    ensures
        one == other,
{
    let left = before + one;
    let right = before + other;
    assert(left.len() == right.len());
    assert forall|i: int| 0 <= i < one.len() implies one[i] == other[i] by {
        assert(left[before.len() + i] == one[i]);
        assert(right[before.len() + i] == other[i]);
    }
    assert(one =~= other);
}

proof fn lemma_suffix(one: Seq<char>, other: Seq<char>, after: Seq<char>)
    requires
        one + after == other + after,
    ensures
        one == other,
{
    let left = one + after;
    let right = other + after;
    assert(left.len() == right.len());
    assert forall|i: int| 0 <= i < one.len() implies one[i] == other[i] by {
        assert(left[i] == one[i]);
        assert(right[i] == other[i]);
    }
    assert(one =~= other);
}

/// The context of a crate tells where its root is, its name, its version, where it comes from, its
/// edition and its flags: where two crates are the same but for one of these, and their contexts have
/// one digest, that one is the same as well, unless there is a collision.
pub proof fn law_contexts_tell_crates_apart(one: CrateFacts, other: CrateFacts, fact: int)
    requires
        are_same_crates_but(one, other, fact),
        context_digest(one) == context_digest(other),
        digest_of(encode_utf8(crate_context(one))) == digest_of(encode_utf8(crate_context(other)))
            ==> crate_context(one) == crate_context(other),
    ensures
        root_key(one.root) == root_key(other.root),
        one.display_name@ == other.display_name@,
        one.version@ == other.version@,
        one.origin@ == other.origin@,
        one.edition@ == other.edition@,
        one.cfg@ == other.cfg@,
{
    let rest = list_debug(stable_sorted::<String>(dependency_lines(one.dependencies@)));
    let a0 = "root="@;
    let a1 = a0 + root_key(one.root);
    let a2 = a1 + ";name="@;
    let a3 = a2 + one.display_name@;
    let a4 = a3 + ";version="@;
    let a5 = a4 + one.version@;
    let a6 = a5 + ";origin="@;
    let a7 = a6 + one.origin@;
    let a8 = a7 + ";edition="@;
    let a9 = a8 + one.edition@;
    let a10 = a9 + ";cfg="@;
    let a11 = a10 + one.cfg@;
    let a12 = a11 + ";dependencies="@;
    let a13 = a12 + rest;
    let b0 = "root="@;
    let b1 = b0 + root_key(other.root);
    let b2 = b1 + ";name="@;
    let b3 = b2 + other.display_name@;
    let b4 = b3 + ";version="@;
    let b5 = b4 + other.version@;
    let b6 = b5 + ";origin="@;
    let b7 = b6 + other.origin@;
    let b8 = b7 + ";edition="@;
    let b9 = b8 + other.edition@;
    let b10 = b9 + ";cfg="@;
    let b11 = b10 + other.cfg@;
    let b12 = b11 + ";dependencies="@;
    let b13 = b12 + rest;
    assert(crate_context(one) == a13 && crate_context(other) == b13);
    lemma_suffix(a12, b12, rest);
    lemma_suffix(a11, b11, ";dependencies="@);
    if fact == 5 {
        assert(a10 == b10);
        lemma_prefix(a10, one.cfg@, other.cfg@);
    } else {
        lemma_suffix(a10, b10, one.cfg@);
        lemma_suffix(a9, b9, ";cfg="@);
        if fact == 4 {
            assert(a8 == b8);
            lemma_prefix(a8, one.edition@, other.edition@);
        } else {
            lemma_suffix(a8, b8, one.edition@);
            lemma_suffix(a7, b7, ";edition="@);
            if fact == 3 {
                assert(a6 == b6);
                lemma_prefix(a6, one.origin@, other.origin@);
            } else {
                lemma_suffix(a6, b6, one.origin@);
                lemma_suffix(a5, b5, ";origin="@);
                if fact == 2 {
                    assert(a4 == b4);
                    lemma_prefix(a4, one.version@, other.version@);
                } else {
                    lemma_suffix(a4, b4, one.version@);
                    lemma_suffix(a3, b3, ";version="@);
                    if fact == 1 {
                        assert(a2 == b2);
                        lemma_prefix(a2, one.display_name@, other.display_name@);
                    } else {
                        lemma_suffix(a2, b2, one.display_name@);
                        lemma_suffix(a1, b1, ";name="@);
                        if fact == 0 {
                            lemma_prefix(a0, root_key(one.root), root_key(other.root));
                        }
                    }
                }
            }
        }
    }
}

/// Whether two dependencies are the same but for one fact about each of them.
pub open spec fn are_same_dependencies_but(
    one: CrateDependency,
    other: CrateDependency,
    fact: int,
) -> bool {
    &&& fact == 0 || one.name@ == other.name@
    &&& fact == 1 || one.display_name@ == other.display_name@
    &&& fact == 2 || one.version@ == other.version@
    &&& fact == 3 || one.origin@ == other.origin@
    &&& fact == 4 || root_key(one.root) == root_key(other.root)
    &&& fact == 5 || one.cfg@ == other.cfg@
}

/// The line of a dependency in the context of a crate tells the same of it, and the name that it goes
/// by in the crate.
pub proof fn law_dependencies_are_told_apart(
    one: CrateDependency,
    other: CrateDependency,
    fact: int,
)
    requires
        are_same_dependencies_but(one, other, fact),
        dependency_line(one) == dependency_line(other),
    ensures
        one.name@ == other.name@,
        one.display_name@ == other.display_name@,
        one.version@ == other.version@,
        one.origin@ == other.origin@,
        root_key(one.root) == root_key(other.root),
        one.cfg@ == other.cfg@,
{
    let a0 = one.name@;
    let a1 = a0 + "="@;
    let a2 = a1 + one.display_name@;
    let a3 = a2 + "@"@;
    let a4 = a3 + one.version@;
    let a5 = a4 + ":"@;
    let a6 = a5 + one.origin@;
    let a7 = a6 + ":"@;
    let a8 = a7 + root_key(one.root);
    let a9 = a8 + ":"@;
    let a10 = a9 + one.cfg@;
    let b0 = other.name@;
    let b1 = b0 + "="@;
    let b2 = b1 + other.display_name@;
    let b3 = b2 + "@"@;
    let b4 = b3 + other.version@;
    let b5 = b4 + ":"@;
    let b6 = b5 + other.origin@;
    let b7 = b6 + ":"@;
    let b8 = b7 + root_key(other.root);
    let b9 = b8 + ":"@;
    let b10 = b9 + other.cfg@;
    assert(dependency_line(one) == a10 && dependency_line(other) == b10);
    if fact == 5 {
        assert(a9 == b9);
        lemma_prefix(a9, one.cfg@, other.cfg@);
    } else {
        lemma_suffix(a9, b9, one.cfg@);
        lemma_suffix(a8, b8, ":"@);
        if fact == 4 {
            assert(a7 == b7);
            lemma_prefix(a7, root_key(one.root), root_key(other.root));
        } else {
            lemma_suffix(a7, b7, root_key(one.root));
            lemma_suffix(a6, b6, ":"@);
            if fact == 3 {
                assert(a5 == b5);
                lemma_prefix(a5, one.origin@, other.origin@);
            } else {
                lemma_suffix(a5, b5, one.origin@);
                lemma_suffix(a4, b4, ":"@);
                if fact == 2 {
                    assert(a3 == b3);
                    lemma_prefix(a3, one.version@, other.version@);
                } else {
                    lemma_suffix(a3, b3, one.version@);
                    lemma_suffix(a2, b2, "@"@);
                    if fact == 1 {
                        assert(a1 == b1);
                        lemma_prefix(a1, one.display_name@, other.display_name@);
                    } else {
                        lemma_suffix(a1, b1, one.display_name@);
                        lemma_suffix(a0, b0, "="@);
                    }
                }
            }
        }
    }
}

/// The key of the root of a crate does not depend on where the workspace is: two crates whose roots
/// lie at the same place below it have the same key, wherever it is itself. A crate that is not of
/// the workspace is a dependency, wherever its root is.
pub proof fn law_roots_do_not_depend_on_the_workspace(one: CrateRoot, other: CrateRoot)
    requires
        one.is_local == other.is_local,
        one.is_local ==> one.path is Disk && other.path is Disk && one.path->relative is Some
            && other.path->relative is Some,
        one.is_local ==> one.path->relative->0@ == other.path->relative->0@,
        one.directory.deep_view() == other.directory.deep_view(),
        one.graph_identity.deep_view() == other.graph_identity.deep_view(),
    ensures
        root_key(one) == root_key(other),
        !one.is_local ==> root_key(one) == "dependency"@,
{
}

/// Roots at different places below the workspace have different keys, where the two are otherwise the
/// same.
pub proof fn law_roots_tell_places_apart(one: CrateRoot, other: CrateRoot)
    requires
        one.is_local && other.is_local,
        one.path is Disk && other.path is Disk,
        one.path->relative is Some && other.path->relative is Some,
        one.directory.deep_view() == other.directory.deep_view(),
        one.graph_identity.deep_view() == other.graph_identity.deep_view(),
        root_key(one) == root_key(other),
    ensures
        normalized(one.path->relative->0@) == normalized(other.path->relative->0@),
{
    let left = normalized(one.path->relative->0@);
    let right = normalized(other.path->relative->0@);
    let before = match one.graph_identity {
        Some(identity) => identity@ + ";root="@,
        None => (match one.directory {
            Some(name) => name@,
            None => "workspace"@,
        }) + "/"@,
    };
    assert(root_key(one) == before + left);
    assert(root_key(other) == before + right);
    lemma_prefix(before, left, right);
}

/// A declaration is told apart by the context of its crate, or else by that of the crate of the
/// declaration around it. One that has neither is part of the language.
pub proof fn law_declarations_belong_to_a_context(declaration: Declaration)
    ensures
        declaration.krate matches Some(krate) ==> declaration_context(declaration)
            == context_digest(krate),
        declaration.krate is None ==> (declaration.owner matches Some(owner) ==> (
        owner.declaration.krate matches Some(krate) ==> declaration_context(declaration)
            == context_digest(krate))),
        declaration.krate is None && (declaration.owner is None
            || declaration.owner->0.declaration.krate is None) ==> declaration_context(declaration)
            == "builtin"@,
{
}

/// Whether two names stand for the same thing in a scope but for where they stand.
pub open spec fn are_namesakes_in(scope: TextRange, one: NameSite, other: NameSite) -> bool {
    &&& scope.start <= one.range.start && one.range.end <= scope.end
    &&& scope.start <= other.range.start && other.range.end <= scope.end
    &&& one.text@ == other.text@
    &&& one.parent_kind.deep_view() == other.parent_kind.deep_view()
}

proof fn lemma_ordinal(name: NameSite, scope: TextRange, names: Seq<NameSite>, from: int, at: int)
    requires
        0 <= from <= at < names.len(),
        names[at] == name,
        is_namesake(name, scope, name),
        forall|i: int| from <= i < at ==> (#[trigger] names[i]).range != name.range,
    ensures
        ordinal_from(name, scope, names, from) == namesakes_between(name, scope, names, from, at),
    decreases at - from,
{
    if from < at {
        lemma_ordinal(name, scope, names, from + 1, at);
    }
}

/// The number of namesakes of a name between two positions.
spec fn namesakes_between(
    name: NameSite,
    scope: TextRange,
    names: Seq<NameSite>,
    from: int,
    to: int,
) -> nat
    decreases to - from,
{
    if from >= to {
        0
    } else {
        namesakes_between(name, scope, names, from + 1, to) + if is_namesake(
            name,
            scope,
            names[from],
        ) {
            1nat
        } else {
            0nat
        }
    }
}

proof fn lemma_between(
    one: NameSite,
    other: NameSite,
    scope: TextRange,
    names: Seq<NameSite>,
    from: int,
    at: int,
    to: int,
)
    requires
        0 <= from <= at < to <= names.len(),
        are_namesakes_in(scope, one, other),
        names[at] == one,
    ensures
        namesakes_between(one, scope, names, from, at) < namesakes_between(
            other,
            scope,
            names,
            from,
            to,
        ),
    decreases at - from,
{
    assert(is_namesake(one, scope, names[from]) == is_namesake(other, scope, names[from]));
    if from < at {
        lemma_between(one, other, scope, names, from + 1, at, to);
    }
}

/// Namesakes in a scope are told apart: an earlier one has a lesser number than a later one, where all
/// names stand at places of their own.
pub proof fn law_namesakes_are_told_apart(
    scope: TextRange,
    names: Seq<NameSite>,
    earlier: int,
    later: int,
)
    requires
        0 <= earlier < later < names.len(),
        are_namesakes_in(scope, names[earlier], names[later]),
        forall|i: int, j: int|
            0 <= i < j < names.len() ==> (#[trigger] names[i]).range != (#[trigger] names[j]).range,
    ensures
        ordinal_from(names[earlier], scope, names, 0) < ordinal_from(names[later], scope, names, 0),
{
    let one = names[earlier];
    let other = names[later];
    assert(is_namesake(one, scope, one));
    assert(is_namesake(other, scope, other));
    lemma_ordinal(one, scope, names, 0, earlier);
    lemma_ordinal(other, scope, names, 0, later);
    lemma_between(one, other, scope, names, 0, earlier, later);
}

proof fn lemma_regrouped(start: Seq<char>, one: Seq<char>, two: Seq<char>, three: Seq<char>)
    ensures
        start + one + two + three == start + (one + (two + (three + Seq::<char>::empty()))),
{
    assert(start + one + two + three =~= start + (one + (two + (three + Seq::<char>::empty()))));
}

/// The identity of an export tells who exports what under which name: where two identities are the
/// same, so are these.
pub proof fn law_exports_are_told_apart(
    one: StaticExportDataModel,
    target: Seq<char>,
    other: StaticExportDataModel,
    other_target: Seq<char>,
    crates: Seq<FileCrate>,
    krate: Option<int>,
    scope: Option<ModuleScope>,
    name: Option<Seq<char>>,
    at: FileRange,
    ancestors: Seq<Ancestor>,
    other_crates: Seq<FileCrate>,
    other_krate: Option<int>,
    other_scope: Option<ModuleScope>,
    other_name: Option<Seq<char>>,
    other_at: FileRange,
    other_ancestors: Seq<Ancestor>,
)
    requires
        export_of(crates, krate, scope, name, target, at, ancestors) == Some(one),
        export_of(
            other_crates,
            other_krate,
            other_scope,
            other_name,
            other_target,
            other_at,
            other_ancestors,
        ) == Some(other),
        one.alias_id == other.alias_id,
    ensures
        one.exporter == other.exporter,
        one.alias == other.alias,
        target == other_target,
{
    let none = Seq::<char>::empty();
    let a1 = component("exporter"@, one.exporter);
    let a2 = component("alias"@, one.alias);
    let a3 = component("target"@, target);
    let b1 = component("exporter"@, other.exporter);
    let b2 = component("alias"@, other.alias);
    let b3 = component("target"@, other_target);
    assert(one.alias_id == "rust-export-v1"@ + a1 + a2 + a3);
    assert(other.alias_id == "rust-export-v1"@ + b1 + b2 + b3);
    lemma_regrouped("rust-export-v1"@, a1, a2, a3);
    lemma_regrouped("rust-export-v1"@, b1, b2, b3);
    lemma_prefix("rust-export-v1"@, a1 + (a2 + (a3 + none)), b1 + (b2 + (b3 + none)));
    law_components_are_unambiguous(
        "exporter"@,
        one.exporter,
        a2 + (a3 + none),
        "exporter"@,
        other.exporter,
        b2 + (b3 + none),
    );
    law_components_are_unambiguous(
        "alias"@,
        one.alias,
        a3 + none,
        "alias"@,
        other.alias,
        b3 + none,
    );
    law_components_are_unambiguous("target"@, target, none, "target"@, other_target, none);
}

proof fn lemma_outsider(
    name: NameSite,
    scope: TextRange,
    names: Seq<NameSite>,
    at: int,
    outsider: NameSite,
    from: int,
)
    requires
        0 <= at <= names.len(),
        0 <= from <= names.len() + 1,
        !(scope.start <= outsider.range.start && outsider.range.end <= scope.end),
    ensures
        from <= at ==> ordinal_from(name, scope, names.insert(at, outsider), from) == ordinal_from(
            name,
            scope,
            names,
            from,
        ),
        from > at ==> ordinal_from(name, scope, names.insert(at, outsider), from) == ordinal_from(
            name,
            scope,
            names,
            from - 1,
        ),
    decreases names.len() + 1 - from,
{
    let more = names.insert(at, outsider);
    if from <= names.len() {
        lemma_outsider(name, scope, names, at, outsider, from + 1);
        if from < at {
            assert(more[from] == names[from]);
        } else if from == at {
            assert(more[from] == outsider);
        } else {
            assert(more[from] == names[from - 1]);
        }
    }
}

/// What stands outside of the declaration around a declaration does not count: a name that comes in
/// elsewhere in the file, be it the same, leaves the place of the declaration in its scope as it was.
pub proof fn law_other_scopes_do_not_count(
    syntax: DeclarationSyntax,
    name: NameSite,
    names: Vec<NameSite>,
    more: Vec<NameSite>,
    at: int,
    outsider: NameSite,
)
    requires
        syntax.place == Place::Name(name, names),
        syntax.owner is Some,
        syntax.owner->0.file_id == syntax.file_id,
        !(syntax.owner->0.range.start <= outsider.range.start && outsider.range.end
            <= syntax.owner->0.range.end),
        0 <= at <= names@.len(),
        more@ == names@.insert(at, outsider),
    ensures
        syntax_text(Some((DeclarationSyntax { place: Place::Name(name, more), ..syntax })))
            == syntax_text(Some(syntax)),
{
    lemma_outsider(name, syntax.owner->0.range, names@, at, outsider, 0);
}

/// The length of a text, with its first and its last character.
spec fn outline(text: Seq<char>) -> (nat, char, char) {
    (text.len(), text[0], text[text.len() - 1])
}

spec fn descriptor_outline(kind: MonikerDescriptorKind) -> (nat, char, char) {
    match kind {
        MonikerDescriptorKind::Namespace => (9, 'N', 'e'),
        MonikerDescriptorKind::Type => (4, 'T', 'e'),
        MonikerDescriptorKind::Term => (4, 'T', 'm'),
        MonikerDescriptorKind::Method => (6, 'M', 'd'),
        MonikerDescriptorKind::TypeParameter => (13, 'T', 'r'),
        MonikerDescriptorKind::Parameter => (9, 'P', 'r'),
        MonikerDescriptorKind::Macro => (5, 'M', 'o'),
        MonikerDescriptorKind::Meta => (4, 'M', 'a'),
    }
}

proof fn lemma_descriptor_outline(kind: MonikerDescriptorKind)
    ensures
        outline(descriptor_name(kind)) == descriptor_outline(kind),
{
    reveal_strlit("Namespace");
    reveal_strlit("Type");
    reveal_strlit("Term");
    reveal_strlit("Method");
    reveal_strlit("TypeParameter");
    reveal_strlit("Parameter");
    reveal_strlit("Macro");
    reveal_strlit("Meta");
}

/// Identities tell kinds and names apart: where two identities are the same, so are the kinds and the
/// names along the paths of the declarations, or, where these are local or unknown across packages,
/// their own kinds and names.
pub proof fn law_identities_tell_kinds_apart(
    one: Declaration,
    one_moniker: Option<MonikerResult>,
    other: Declaration,
    other_moniker: Option<MonikerResult>,
)
    requires
        identity_of(one, one_moniker) == identity_of(other, other_moniker),
    ensures
        one_moniker is Some == other_moniker is Some,
        one_moniker matches Some(MonikerResult::Moniker(moniker)) ==> {
            &&& other_moniker matches Some(MonikerResult::Moniker(other_path)) && {
                let path = moniker.identifier.description@;
                let others = other_path.identifier.description@;
                &&& moniker.identifier.crate_name@ == other_path.identifier.crate_name@
                &&& moniker.package_information.name@ == other_path.package_information.name@
                &&& path.len() == others.len()
                &&& forall|i: int|
                    0 <= i < path.len() ==> (#[trigger] path[i]).desc == others[i].desc
                        && path[i].name@ == others[i].name@
            }
        },
        !(one_moniker matches Some(MonikerResult::Moniker(_))) ==> one.kind == other.kind,
        !(one_moniker matches Some(MonikerResult::Moniker(_))) && one.name is Some && other.name
            is Some ==> one.name->0@ == other.name->0@,
{
    law_identities_tell_apart(one, one_moniker, other, other_moniker);
    match (one_moniker, other_moniker) {
        (Some(MonikerResult::Moniker(moniker)), Some(MonikerResult::Moniker(other_path))) => {
            let path = moniker.identifier.description@;
            let others = other_path.identifier.description@;
            assert forall|i: int| 0 <= i < path.len() implies (#[trigger] path[i]).desc
                == others[i].desc && path[i].name@ == others[i].name@ by {
                lemma_descriptor_outline(path[i].desc);
                lemma_descriptor_outline(others[i].desc);
            }
        },
        _ => {
            if one.kind != other.kind {
                law_kinds_have_distinct_names(one.kind, other.kind);
            }
        },
    }
}

} // verus!
