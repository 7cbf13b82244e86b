//! What identities of declarations tell apart, and what they do not depend on.

use vstd::prelude::*;
use vstd::string::*;

use crate::files::TextRange;
use crate::identity::{
    Container, Declaration, DeclarationSyntax, NameSite, NamedDeclaration, Place, SyntaxStep,
    component, container_components, declaration_context, descriptors, identity_of,
    law_components_are_unambiguous, local_components, moniker_components, name_components,
    ordinal_from, scope_of, steps_to, syntax_text, text_or_empty,
};
use crate::moniker::{Moniker, MonikerDescriptor, MonikerResult, descriptor_name, kind_name};

verus! {

/// Whether a range is another one moved by a distance.
pub open spec fn is_moved(range: TextRange, moved: TextRange, distance: int) -> bool {
    moved.start == range.start + distance && moved.end == range.end + distance
}

/// Whether a name is another one moved by a distance.
pub open spec fn is_moved_name(name: NameSite, moved: NameSite, distance: int) -> bool {
    &&& moved.text@ == name.text@
    &&& moved.parent_kind.deep_view() == name.parent_kind.deep_view()
    &&& is_moved(name.range, moved.range, distance)
}

/// Whether a node is another one moved by a distance.
pub open spec fn is_moved_step(step: SyntaxStep, moved: SyntaxStep, distance: int) -> bool {
    &&& moved.kind@ == step.kind@
    &&& moved.is_root == step.is_root
    &&& moved.earlier.deep_view() == step.earlier.deep_view()
    &&& is_moved(step.range, moved.range, distance)
}

/// Whether a declaration and everything around it moved by a distance.
pub open spec fn is_moved_syntax(
    syntax: DeclarationSyntax,
    moved: DeclarationSyntax,
    distance: int,
) -> bool {
    &&& is_moved(scope_of(syntax), scope_of(moved), distance)
    &&& match (syntax.place, moved.place) {
        (Place::Name(name, names), Place::Name(moved_name, moved_names)) => {
            &&& is_moved_name(name, moved_name, distance)
            &&& names@.len() == moved_names@.len()
            &&& forall|i: int|
                0 <= i < names@.len() ==> is_moved_name(
                    #[trigger] names@[i],
                    #[trigger] moved_names@[i],
                    distance,
                )
        },
        (Place::Path(steps), Place::Path(moved_steps)) => {
            &&& steps@.len() == moved_steps@.len()
            &&& forall|i: int|
                0 <= i < steps@.len() ==> is_moved_step(
                    #[trigger] steps@[i],
                    #[trigger] moved_steps@[i],
                    distance,
                )
        },
        _ => false,
    }
}

proof fn lemma_moved_ordinal(
    name: NameSite,
    scope: TextRange,
    names: Seq<NameSite>,
    moved_name: NameSite,
    moved_scope: TextRange,
    moved_names: Seq<NameSite>,
    distance: int,
    from: int,
)
    requires
        0 <= from,
        is_moved(scope, moved_scope, distance),
        is_moved_name(name, moved_name, distance),
        names.len() == moved_names.len(),
        forall|i: int|
            0 <= i < names.len() ==> is_moved_name(
                #[trigger] names[i],
                #[trigger] moved_names[i],
                distance,
            ),
    ensures
        ordinal_from(name, scope, names, from) == ordinal_from(
            moved_name,
            moved_scope,
            moved_names,
            from,
        ),
    decreases names.len() - from,
{
    if from < names.len() {
        lemma_moved_ordinal(
            name,
            scope,
            names,
            moved_name,
            moved_scope,
            moved_names,
            distance,
            from + 1,
        );
        assert(is_moved_name(names[from], moved_names[from], distance));
    }
}

proof fn lemma_moved_steps(
    steps: Seq<SyntaxStep>,
    scope: TextRange,
    moved_steps: Seq<SyntaxStep>,
    moved_scope: TextRange,
    distance: int,
    from: int,
)
    requires
        0 <= from,
        is_moved(scope, moved_scope, distance),
        steps.len() == moved_steps.len(),
        forall|i: int|
            0 <= i < steps.len() ==> is_moved_step(
                #[trigger] steps[i],
                #[trigger] moved_steps[i],
                distance,
            ),
    ensures
        steps_to(steps, scope, from) == steps_to(moved_steps, moved_scope, from),
    decreases steps.len() - from,
{
    if from < steps.len() {
        lemma_moved_steps(steps, scope, moved_steps, moved_scope, distance, from + 1);
        assert(is_moved_step(steps[from], moved_steps[from], distance));
    }
}

/// Whether two declarations stand at the same place of their scopes: both are unknown, both have
/// names that belong to nodes of one kind and have as many namesakes before them, or both have none
/// and the same nodes lead to them. Where the scopes are, and how long anything in them is, does not
/// matter.
pub open spec fn is_same_place(
    one: Option<DeclarationSyntax>,
    other: Option<DeclarationSyntax>,
) -> bool {
    match (one, other) {
        (Some(one), Some(other)) => match (one.place, other.place) {
            (Place::Name(name, names), Place::Name(other_name, other_names)) => {
                &&& name.parent_kind.deep_view() == other_name.parent_kind.deep_view()
                &&& ordinal_from(name, scope_of(one), names@, 0) == ordinal_from(
                    other_name,
                    scope_of(other),
                    other_names@,
                    0,
                )
            },
            (Place::Path(steps), Place::Path(other_steps)) => steps_to(
                steps@,
                scope_of(one),
                0,
            ) == steps_to(other_steps@, scope_of(other), 0),
            _ => false,
        },
        (None, None) => true,
        _ => false,
    }
}

/// A declaration that moves along with everything around it stays at the same place of its scope.
pub proof fn law_shifts_keep_the_place(
    syntax: DeclarationSyntax,
    moved: DeclarationSyntax,
    distance: int,
)
    requires
        is_moved_syntax(syntax, moved, distance),
    ensures
        is_same_place(Some(syntax), Some(moved)),
{
    match (syntax.place, moved.place) {
        (Place::Name(name, names), Place::Name(moved_name, moved_names)) => {
            lemma_moved_ordinal(
                name,
                scope_of(syntax),
                names@,
                moved_name,
                scope_of(moved),
                moved_names@,
                distance,
                0,
            );
        },
        (Place::Path(steps), Place::Path(moved_steps)) => {
            lemma_moved_steps(steps@, scope_of(syntax), moved_steps@, scope_of(moved), distance, 0);
        },
        _ => {},
    }
}

proof fn lemma_same_place(one: Option<DeclarationSyntax>, other: Option<DeclarationSyntax>)
    requires
        is_same_place(one, other),
    ensures
        syntax_text(one) == syntax_text(other),
{
    match (one, other) {
        (Some(one), Some(other)) => match (one.place, other.place) {
            (Place::Name(name, _), Place::Name(other_name, _)) => {
                assert(name.parent_kind.deep_view() == other_name.parent_kind.deep_view());
            },
            _ => {},
        },
        _ => {},
    }
}

/// Whether the parts of two paths have the same kinds and names.
pub open spec fn are_same_descriptors(
    one: Seq<MonikerDescriptor>,
    other: Seq<MonikerDescriptor>,
) -> bool {
    &&& one.len() == other.len()
    &&& forall|i: int|
        0 <= i < one.len() ==> descriptor_name((#[trigger] one[i]).desc) == descriptor_name(
            (#[trigger] other[i]).desc,
        ) && one[i].name@ == other[i].name@
}

/// Whether two names across packages are the same: they give the same package, version, repository,
/// crate and path. A version or a repository that is unknown counts as an empty one.
pub open spec fn is_same_moniker(one: Moniker, other: Moniker) -> bool {
    &&& one.package_information.name@ == other.package_information.name@
    &&& text_or_empty(one.package_information.version.deep_view()) == text_or_empty(
        other.package_information.version.deep_view(),
    )
    &&& text_or_empty(one.package_information.repo.deep_view()) == text_or_empty(
        other.package_information.repo.deep_view(),
    )
    &&& one.identifier.crate_name@ == other.identifier.crate_name@
    &&& are_same_descriptors(one.identifier.description@, other.identifier.description@)
}

/// Whether two optional names across packages are both unknown or the same.
pub open spec fn is_same_scope(one: Option<Moniker>, other: Option<Moniker>) -> bool {
    match (one, other) {
        (Some(one), Some(other)) => is_same_moniker(one, other),
        (None, None) => true,
        _ => false,
    }
}

/// Whether two declarations have the same kind and name and stand at the same place of their
/// scopes.
pub open spec fn is_same_local(one: Declaration, other: Declaration) -> bool {
    &&& kind_name(one.kind) == kind_name(other.kind)
    &&& text_or_empty(one.name.deep_view()) == text_or_empty(other.name.deep_view())
    &&& is_same_place(one.syntax, other.syntax)
}

/// Whether two declarations are the same but for where they stand: they belong to the same context,
/// they have the same name across packages or, without one, the same kind, name and place in the
/// same scope or the same declaration around them, and they are items of the same trait or
/// implementation, all of this in turn.
pub open spec fn is_same_declaration(
    one: Declaration,
    one_moniker: Option<MonikerResult>,
    other: Declaration,
    other_moniker: Option<MonikerResult>,
) -> bool
    decreases one,
{
    &&& declaration_context(one) == declaration_context(other)
    &&& match (one_moniker, other_moniker) {
        (Some(MonikerResult::Moniker(moniker)), Some(MonikerResult::Moniker(other_moniker))) => {
            is_same_moniker(moniker, other_moniker)
        },
        (
            Some(MonikerResult::Local { enclosing_moniker }),
            Some(MonikerResult::Local { enclosing_moniker: other_enclosing }),
        ) => is_same_scope(enclosing_moniker, other_enclosing) && is_same_local(one, other),
        (None, None) => {
            &&& is_same_local(one, other)
            &&& has_known_owner(one) == has_known_owner(other)
            &&& match (one.owner, other.owner) {
                (Some(owner), Some(other_owner)) => has_known_owner(one) ==> is_same_declaration(
                    owner.declaration,
                    owner.moniker,
                    other_owner.declaration,
                    other_owner.moniker,
                ),
                _ => true,
            }
        },
        _ => false,
    }
    &&& match (one.container, other.container) {
        (None, None) => true,
        (Some(Container::Trait(owner)), Some(Container::Trait(other_owner))) => is_same_declaration(
            owner.declaration,
            owner.moniker,
            other_owner.declaration,
            other_owner.moniker,
        ),
        (
            Some(Container::Impl { self_type, implemented }),
            Some(Container::Impl { self_type: other_type, implemented: other_implemented }),
        ) => {
            &&& self_type@ == other_type@
            &&& match (implemented, other_implemented) {
                (None, None) => true,
                (Some(owner), Some(other_owner)) => is_same_declaration(
                    owner.declaration,
                    owner.moniker,
                    other_owner.declaration,
                    other_owner.moniker,
                ),
                _ => false,
            }
        },
        _ => false,
    }
}

/// Whether the declaration around a declaration belongs to a crate.
pub open spec fn has_known_owner(declaration: Declaration) -> bool {
    match declaration.owner {
        Some(owner) => owner.declaration.krate is Some,
        None => false,
    }
}

proof fn lemma_same_descriptors(
    one: Seq<MonikerDescriptor>,
    other: Seq<MonikerDescriptor>,
    count: int,
)
    requires
        are_same_descriptors(one, other),
        count <= one.len(),
    ensures
        descriptors(one, count) == descriptors(other, count),
    decreases count,
{
    if count > 0 {
        lemma_same_descriptors(one, other, count - 1);
        assert(descriptor_name(one[count - 1].desc) == descriptor_name(other[count - 1].desc));
    }
}

proof fn lemma_same_moniker(one: Moniker, other: Moniker)
    requires
        is_same_moniker(one, other),
    ensures
        moniker_components(one) == moniker_components(other),
{
    lemma_same_descriptors(
        one.identifier.description@,
        other.identifier.description@,
        one.identifier.description@.len() as int,
    );
}

/// The identity of a declaration does not depend on its coordinates: declarations that are the same
/// but for where they stand have the same identity, whatever precedes them in their files, however
/// long it is, and in whichever files they are.
pub proof fn law_identity_ignores_coordinates(
    one: Declaration,
    one_moniker: Option<MonikerResult>,
    other: Declaration,
    other_moniker: Option<MonikerResult>,
)
    requires
        is_same_declaration(one, one_moniker, other, other_moniker),
    ensures
        identity_of(one, one_moniker) == identity_of(other, other_moniker),
    decreases one,
{
    if is_same_local(one, other) {
        lemma_same_place(one.syntax, other.syntax);
    }
    match (one_moniker, other_moniker) {
        (Some(MonikerResult::Moniker(moniker)), Some(MonikerResult::Moniker(other_moniker))) => {
            lemma_same_moniker(moniker, other_moniker);
        },
        (
            Some(MonikerResult::Local { enclosing_moniker }),
            Some(MonikerResult::Local { enclosing_moniker: other_enclosing }),
        ) => {
            if enclosing_moniker is Some {
                lemma_same_moniker(enclosing_moniker->0, other_enclosing->0);
            }
        },
        _ => match (one.owner, other.owner) {
            (Some(owner), Some(other_owner)) => {
                if has_known_owner(one) {
                    law_identity_ignores_coordinates(
                        owner.declaration,
                        owner.moniker,
                        other_owner.declaration,
                        other_owner.moniker,
                    );
                }
            },
            _ => {},
        },
    }
    assert(name_components(one, one_moniker) == name_components(other, other_moniker));
    match (one.container, other.container) {
        (Some(Container::Trait(owner)), Some(Container::Trait(other_owner))) => {
            law_identity_ignores_coordinates(
                owner.declaration,
                owner.moniker,
                other_owner.declaration,
                other_owner.moniker,
            );
        },
        (
            Some(Container::Impl { self_type, implemented }),
            Some(Container::Impl { self_type: other_type, implemented: other_implemented }),
        ) => match (implemented, other_implemented) {
            (Some(owner), Some(other_owner)) => {
                law_identity_ignores_coordinates(
                    owner.declaration,
                    owner.moniker,
                    other_owner.declaration,
                    other_owner.moniker,
                );
            },
            _ => {},
        },
        _ => {},
    }
    assert(container_components(one) == container_components(other));
}

/// A labelled value.
pub type Part = (Seq<char>, Seq<char>);

/// The text of labelled values, one behind the other.
pub open spec fn parts_text(parts: Seq<Part>) -> Seq<char>
    decreases parts.len(),
{
    if parts.len() == 0 {
        Seq::empty()
    } else {
        component(parts[0].0, parts[0].1) + parts_text(parts.drop_first())
    }
}

proof fn lemma_parts_joined(one: Seq<Part>, other: Seq<Part>)
    ensures
        parts_text(one + other) == parts_text(one) + parts_text(other),
    decreases one.len(),
{
    if one.len() == 0 {
        assert(one + other =~= other);
        assert(parts_text(one) + parts_text(other) =~= parts_text(other));
    } else {
        lemma_parts_joined(one.drop_first(), other);
        assert((one + other).drop_first() =~= one.drop_first() + other);
        assert((one + other)[0] == one[0]);
        let first = component(one[0].0, one[0].1);
        assert(first + (parts_text(one.drop_first()) + parts_text(other)) =~= first + parts_text(
            one.drop_first(),
        ) + parts_text(other));
    }
}

proof fn lemma_one_part(label: Seq<char>, value: Seq<char>)
    ensures
        parts_text(seq![(label, value)]) == component(label, value),
{
    let parts = seq![(label, value)];
    assert(parts.drop_first() =~= Seq::empty());
    assert(parts_text(parts.drop_first()) =~= Seq::empty());
    assert(component(label, value) + Seq::<char>::empty() =~= component(label, value));
}

proof fn lemma_parts_unique(one: Seq<Part>, other: Seq<Part>)
    requires
        parts_text(one) == parts_text(other),
    ensures
        one == other,
    decreases one.len(),
{
    reveal_strlit("|");
    if one.len() == 0 {
        if other.len() > 0 {
            assert(parts_text(other)[0] == '|');
            assert(parts_text(one).len() == 0 && parts_text(other).len() > 0);
        }
        assert(one =~= other);
    } else if other.len() == 0 {
        assert(parts_text(one)[0] == '|');
        assert(parts_text(other).len() == 0 && parts_text(one).len() > 0);
    } else {
        law_components_are_unambiguous(
            one[0].0,
            one[0].1,
            parts_text(one.drop_first()),
            other[0].0,
            other[0].1,
            parts_text(other.drop_first()),
        );
        lemma_parts_unique(one.drop_first(), other.drop_first());
        assert(one =~= seq![one[0]] + one.drop_first());
        assert(other =~= seq![other[0]] + other.drop_first());
    }
}

/// The labelled values of the first parts of a path.
spec fn descriptor_parts(parts: Seq<MonikerDescriptor>, count: int) -> Seq<Part>
    decreases count,
{
    if count <= 0 {
        Seq::empty()
    } else {
        descriptor_parts(parts, count - 1) + seq![
            ("kind"@, descriptor_name(parts[count - 1].desc)),
            ("name"@, parts[count - 1].name@),
        ]
    }
}

/// The labelled values of a name across packages.
#[verifier::opaque]
spec fn moniker_parts(moniker: Moniker) -> Seq<Part> {
    seq![
        ("package"@, moniker.package_information.name@),
        ("version"@, text_or_empty(moniker.package_information.version.deep_view())),
        ("repository"@, text_or_empty(moniker.package_information.repo.deep_view())),
        ("crate"@, moniker.identifier.crate_name@),
    ] + descriptor_parts(
        moniker.identifier.description@,
        moniker.identifier.description@.len() as int,
    )
}

/// The labelled values of a declaration without a name across packages.
#[verifier::opaque]
spec fn local_parts(declaration: Declaration) -> Seq<Part> {
    seq![
        ("local-kind"@, kind_name(declaration.kind)),
        ("local-name"@, text_or_empty(declaration.name.deep_view())),
        ("syntax"@, syntax_text(declaration.syntax)),
    ]
}

/// The labelled values of the scope of a declaration.
#[verifier::opaque]
spec fn scope_parts(moniker: Option<Moniker>) -> Seq<Part> {
    match moniker {
        Some(moniker) => moniker_parts(moniker),
        None => seq![("scope"@, "unresolved"@)],
    }
}

/// The labelled values of the declaration around a declaration.
#[verifier::opaque]
spec fn owner_parts(declaration: Declaration) -> Seq<Part> {
    match declaration.owner {
        Some(owner) => if owner.declaration.krate is Some {
            seq![("enclosing-owner"@, identity_of(owner.declaration, owner.moniker))]
        } else {
            Seq::empty()
        },
        None => Seq::empty(),
    }
}

/// The labelled values of the name of a declaration.
#[verifier::opaque]
spec fn name_parts(declaration: Declaration, moniker: Option<MonikerResult>) -> Seq<Part> {
    match moniker {
        Some(MonikerResult::Moniker(moniker)) => moniker_parts(moniker),
        Some(MonikerResult::Local { enclosing_moniker }) => scope_parts(enclosing_moniker)
            + local_parts(declaration),
        None => seq![("scope"@, "builtin-or-unresolved"@)] + owner_parts(declaration) + local_parts(
            declaration,
        ),
    }
}

/// The labelled values of what a declaration is an item of.
#[verifier::opaque]
spec fn container_parts(declaration: Declaration) -> Seq<Part> {
    match declaration.container {
        None => Seq::empty(),
        Some(Container::Trait(owner)) => seq![
            ("assoc-owner"@, identity_of(owner.declaration, owner.moniker)),
        ],
        Some(Container::Impl { self_type, implemented }) => seq![
            ("impl-self"@, self_type@),
            (
                "implemented-trait"@,
                match implemented {
                    Some(owner) => identity_of(owner.declaration, owner.moniker),
                    None => "inherent"@,
                },
            ),
        ],
    }
}

proof fn lemma_two_parts(one: Part, other: Part)
    ensures
        parts_text(seq![one, other]) == component(one.0, one.1) + component(other.0, other.1),
{
    lemma_one_part(one.0, one.1);
    lemma_one_part(other.0, other.1);
    lemma_parts_joined(seq![one], seq![other]);
    assert(seq![one] + seq![other] =~= seq![one, other]);
}

proof fn lemma_descriptor_parts(parts: Seq<MonikerDescriptor>, count: int)
    ensures
        parts_text(descriptor_parts(parts, count)) == descriptors(parts, count),
    decreases count,
{
    if count > 0 {
        lemma_descriptor_parts(parts, count - 1);
        let kind = ("kind"@, descriptor_name(parts[count - 1].desc));
        let name = ("name"@, parts[count - 1].name@);
        lemma_two_parts(kind, name);
        lemma_parts_joined(descriptor_parts(parts, count - 1), seq![kind, name]);
        assert(descriptors(parts, count - 1) + (component(kind.0, kind.1) + component(
            name.0,
            name.1,
        )) =~= descriptors(parts, count));
    }
}

proof fn lemma_moniker_parts(moniker: Moniker)
    ensures
        parts_text(moniker_parts(moniker)) == moniker_components(moniker),
{
    reveal(moniker_parts);
    let path = moniker.identifier.description@;
    let package = ("package"@, moniker.package_information.name@);
    let version = ("version"@, text_or_empty(moniker.package_information.version.deep_view()));
    let repository = ("repository"@, text_or_empty(moniker.package_information.repo.deep_view()));
    let krate = ("crate"@, moniker.identifier.crate_name@);
    lemma_descriptor_parts(path, path.len() as int);
    lemma_two_parts(package, version);
    lemma_two_parts(repository, krate);
    lemma_parts_joined(seq![package, version], seq![repository, krate]);
    assert(seq![package, version] + seq![repository, krate] =~= seq![
        package,
        version,
        repository,
        krate,
    ]);
    lemma_parts_joined(
        seq![package, version, repository, krate],
        descriptor_parts(path, path.len() as int),
    );
    assert(parts_text(moniker_parts(moniker)) =~= moniker_components(moniker));
}

proof fn lemma_local_parts(declaration: Declaration)
    ensures
        parts_text(local_parts(declaration)) == local_components(
            declaration.kind,
            declaration.name.deep_view(),
            declaration.syntax,
        ),
{
    reveal(local_parts);
    let kind = ("local-kind"@, kind_name(declaration.kind));
    let name = ("local-name"@, text_or_empty(declaration.name.deep_view()));
    let syntax = ("syntax"@, syntax_text(declaration.syntax));
    lemma_two_parts(kind, name);
    lemma_one_part(syntax.0, syntax.1);
    lemma_parts_joined(seq![kind, name], seq![syntax]);
    assert(seq![kind, name] + seq![syntax] =~= local_parts(declaration));
}

proof fn lemma_name_parts(declaration: Declaration, moniker: Option<MonikerResult>)
    ensures
        parts_text(name_parts(declaration, moniker)) == name_components(declaration, moniker),
{
    reveal(name_parts);
    reveal(scope_parts);
    reveal(owner_parts);
    lemma_local_parts(declaration);
    match moniker {
        Some(MonikerResult::Moniker(moniker)) => {
            lemma_moniker_parts(moniker);
        },
        Some(MonikerResult::Local { enclosing_moniker }) => {
            match enclosing_moniker {
                Some(moniker) => {
                    lemma_moniker_parts(moniker);
                },
                None => {
                    lemma_one_part("scope"@, "unresolved"@);
                },
            }
            lemma_parts_joined(scope_parts(enclosing_moniker), local_parts(declaration));
        },
        None => {
            let scope = seq![("scope"@, "builtin-or-unresolved"@)];
            lemma_one_part("scope"@, "builtin-or-unresolved"@);
            match declaration.owner {
                Some(owner) => {
                    lemma_one_part(
                        "enclosing-owner"@,
                        identity_of(owner.declaration, owner.moniker),
                    );
                },
                None => {},
            }
            lemma_parts_joined(scope, owner_parts(declaration));
            lemma_parts_joined(scope + owner_parts(declaration), local_parts(declaration));
        },
    }
}

proof fn lemma_container_parts(declaration: Declaration)
    ensures
        parts_text(container_parts(declaration)) == container_components(declaration),
{
    reveal(container_parts);
    match declaration.container {
        None => {},
        Some(Container::Trait(owner)) => {
            lemma_one_part("assoc-owner"@, identity_of(owner.declaration, owner.moniker));
        },
        Some(Container::Impl { self_type, implemented }) => {
            let parts = container_parts(declaration);
            lemma_two_parts(parts[0], parts[1]);
            assert(parts =~= seq![parts[0], parts[1]]);
        },
    }
}

/// Whether a label belongs to what a declaration is an item of.
spec fn is_container_label(label: Seq<char>) -> bool {
    label == "assoc-owner"@ || label == "impl-self"@ || label == "implemented-trait"@
}

proof fn lemma_descriptor_labels(parts: Seq<MonikerDescriptor>, count: int)
    requires
        0 <= count,
    ensures
        descriptor_parts(parts, count).len() == 2 * count,
        forall|i: int|
            0 <= i < 2 * count ==> (#[trigger] descriptor_parts(parts, count)[i]).0 == (if i % 2
                == 0 {
                "kind"@
            } else {
                "name"@
            }),
        forall|i: int|
            #![trigger parts[i]]
            0 <= i < count ==> descriptor_parts(parts, count)[2 * i].1 == descriptor_name(
                parts[i].desc,
            ) && descriptor_parts(parts, count)[2 * i + 1].1 == parts[i].name@,
    decreases count,
{
    if count > 0 {
        lemma_descriptor_labels(parts, count - 1);
        let shorter = descriptor_parts(parts, count - 1);
        let all = descriptor_parts(parts, count);
        assert forall|i: int| 0 <= i < 2 * count implies (#[trigger] all[i]).0 == (if i % 2 == 0 {
            "kind"@
        } else {
            "name"@
        }) by {
            if i < 2 * (count - 1) {
                assert(all[i] == shorter[i]);
            } else {
                assert(i == 2 * count - 2 || i == 2 * count - 1);
            }
        }
        assert forall|i: int|
            #![trigger parts[i]]
            0 <= i < count implies all[2 * i].1 == descriptor_name(parts[i].desc) && all[2 * i
            + 1].1 == parts[i].name@ by {
            if i < count - 1 {
                assert(all[2 * i] == shorter[2 * i]);
                assert(all[2 * i + 1] == shorter[2 * i + 1]);
            }
        }
    }
}

/// Whether a label belongs to a name across packages.
spec fn is_moniker_label(label: Seq<char>) -> bool {
    ||| label == "package"@
    ||| label == "version"@
    ||| label == "repository"@
    ||| label == "crate"@
    ||| label == "kind"@
    ||| label == "name"@
}

/// Whether a label belongs to a declaration without a name across packages.
spec fn is_local_label(label: Seq<char>) -> bool {
    ||| label == "local-kind"@
    ||| label == "local-name"@
    ||| label == "syntax"@
    ||| label == "scope"@
    ||| label == "enclosing-owner"@
}

proof fn lemma_labels_apart(label: Seq<char>)
    requires
        is_moniker_label(label) || is_local_label(label),
    ensures
        !is_container_label(label),
{
    reveal_strlit("assoc-owner");
    reveal_strlit("impl-self");
    reveal_strlit("implemented-trait");
    assert(is_container_label(label) ==> label.len() == 11 || label.len() == 9 || label.len()
        == 17);
    reveal_strlit("package");
    reveal_strlit("version");
    reveal_strlit("repository");
    reveal_strlit("crate");
    reveal_strlit("kind");
    reveal_strlit("name");
    assert(is_moniker_label(label) ==> label.len() == 7 || label.len() == 10 || label.len() == 5
        || label.len() == 4);
    reveal_strlit("local-kind");
    reveal_strlit("local-name");
    reveal_strlit("syntax");
    reveal_strlit("scope");
    reveal_strlit("enclosing-owner");
    assert(is_local_label(label) ==> label.len() == 10 || label.len() == 6 || label.len() == 5
        || label.len() == 15);
}

proof fn lemma_name_label(declaration: Declaration, moniker: Option<MonikerResult>, index: int)
    requires
        0 <= index < name_parts(declaration, moniker).len(),
    ensures
        !is_container_label(name_parts(declaration, moniker)[index].0),
{
    reveal(name_parts);
    reveal(scope_parts);
    reveal(owner_parts);
    reveal(local_parts);
    let parts = name_parts(declaration, moniker);
    let label = parts[index].0;
    match moniker {
        Some(MonikerResult::Moniker(moniker)) => {
            lemma_moniker_label(moniker, index);
        },
        Some(MonikerResult::Local { enclosing_moniker }) => {
            let scope = scope_parts(enclosing_moniker);
            if index < scope.len() {
                assert(parts[index] == scope[index]);
                match enclosing_moniker {
                    Some(moniker) => {
                        lemma_moniker_label(moniker, index);
                    },
                    None => {},
                }
            } else {
                assert(parts[index] == local_parts(declaration)[index - scope.len()]);
            }
        },
        None => {
            let owner = owner_parts(declaration);
            if index == 0 {
                assert(label == "scope"@);
            } else if index < 1 + owner.len() {
                assert(parts[index] == owner[index - 1]);
            } else {
                assert(parts[index] == local_parts(declaration)[index - 1 - owner.len()]);
            }
        },
    }
    assert(is_moniker_label(label) || is_local_label(label));
    lemma_labels_apart(label);
}

proof fn lemma_moniker_label(moniker: Moniker, index: int)
    requires
        0 <= index < moniker_parts(moniker).len(),
    ensures
        is_moniker_label(moniker_parts(moniker)[index].0),
{
    reveal(moniker_parts);
    let path = moniker.identifier.description@;
    lemma_descriptor_labels(path, path.len() as int);
    if index >= 4 {
        assert(moniker_parts(moniker)[index] == descriptor_parts(path, path.len() as int)[index
            - 4]);
    }
}

proof fn lemma_identity_parts(declaration: Declaration, moniker: Option<MonikerResult>)
    ensures
        identity_of(declaration, moniker) == "rust-hir-v1"@ + parts_text(
            seq![("crate-context"@, declaration_context(declaration))] + name_parts(
                declaration,
                moniker,
            ) + container_parts(declaration),
        ),
{
    let context = seq![("crate-context"@, declaration_context(declaration))];
    lemma_one_part("crate-context"@, declaration_context(declaration));
    lemma_name_parts(declaration, moniker);
    lemma_container_parts(declaration);
    lemma_parts_joined(context, name_parts(declaration, moniker));
    lemma_parts_joined(context + name_parts(declaration, moniker), container_parts(declaration));
    assert(identity_of(declaration, moniker) =~= "rust-hir-v1"@ + parts_text(
        context + name_parts(declaration, moniker) + container_parts(declaration),
    ));
}

proof fn lemma_container_label(declaration: Declaration)
    ensures
        container_parts(declaration).len() > 0 ==> is_container_label(
            container_parts(declaration)[0].0,
        ),
{
    reveal(container_parts);
}

/// Labelled values with one in front can be told from those of a container behind them.
proof fn lemma_parts_split(
    first: Part,
    name: Seq<Part>,
    container: Seq<Part>,
    other_first: Part,
    other_name: Seq<Part>,
    other_container: Seq<Part>,
)
    requires
        seq![first] + name + container == seq![other_first] + other_name + other_container,
        forall|i: int| 0 <= i < name.len() ==> !is_container_label((#[trigger] name[i]).0),
        forall|i: int|
            0 <= i < other_name.len() ==> !is_container_label((#[trigger] other_name[i]).0),
        container.len() > 0 ==> is_container_label(container[0].0),
        other_container.len() > 0 ==> is_container_label(other_container[0].0),
    ensures
        first == other_first,
        name == other_name,
        container == other_container,
{
    let parts = seq![first] + name + container;
    let other_parts = seq![other_first] + other_name + other_container;
    assert(parts[0] == first && other_parts[0] == other_first);
    assert(parts.len() == 1 + name.len() + container.len());
    assert(other_parts.len() == 1 + other_name.len() + other_container.len());
    if name.len() < other_name.len() {
        let at = name.len() as int;
        assert(parts[1 + at] == container[0]);
        assert(other_parts[1 + at] == other_name[at]);
    }
    if other_name.len() < name.len() {
        let at = other_name.len() as int;
        assert(other_parts[1 + at] == other_container[0]);
        assert(parts[1 + at] == name[at]);
    }
    lemma_parts_cut(seq![first], name, container, seq![other_first], other_name, other_container);
}

proof fn lemma_parts_cut(
    first: Seq<Part>,
    second: Seq<Part>,
    third: Seq<Part>,
    other_first: Seq<Part>,
    other_second: Seq<Part>,
    other_third: Seq<Part>,
)
    requires
        first + second + third == other_first + other_second + other_third,
        first.len() == other_first.len(),
        second.len() == other_second.len(),
    ensures
        first == other_first,
        second == other_second,
        third == other_third,
{
    let parts = first + second + third;
    let other_parts = other_first + other_second + other_third;
    let start = first.len() as int;
    let end = first.len() + second.len() as int;
    assert(first =~= parts.take(start));
    assert(other_first =~= other_parts.take(start));
    assert(second =~= parts.subrange(start, end));
    assert(other_second =~= other_parts.subrange(start, end));
    assert(third =~= parts.skip(end));
    assert(other_third =~= other_parts.skip(end));
}

/// Equal identities have the same labelled values.
proof fn lemma_identity_unique(
    one: Declaration,
    one_moniker: Option<MonikerResult>,
    other: Declaration,
    other_moniker: Option<MonikerResult>,
)
    requires
        identity_of(one, one_moniker) == identity_of(other, other_moniker),
    ensures
        declaration_context(one) == declaration_context(other),
        name_parts(one, one_moniker) == name_parts(other, other_moniker),
        container_parts(one) == container_parts(other),
{
    let context = seq![("crate-context"@, declaration_context(one))];
    let other_context = seq![("crate-context"@, declaration_context(other))];
    let name = name_parts(one, one_moniker);
    let other_name = name_parts(other, other_moniker);
    let container = container_parts(one);
    let other_container = container_parts(other);
    let parts = context + name + container;
    let other_parts = other_context + other_name + other_container;
    lemma_identity_parts(one, one_moniker);
    lemma_identity_parts(other, other_moniker);
    let start = "rust-hir-v1"@.len() as int;
    assert(identity_of(one, one_moniker).skip(start) =~= parts_text(parts));
    assert(identity_of(other, other_moniker).skip(start) =~= parts_text(other_parts));
    lemma_parts_unique(parts, other_parts);
    assert forall|i: int| 0 <= i < name.len() implies !is_container_label(
        (#[trigger] name[i]).0,
    ) by {
        lemma_name_label(one, one_moniker, i);
    }
    assert forall|i: int| 0 <= i < other_name.len() implies !is_container_label(
        (#[trigger] other_name[i]).0,
    ) by {
        lemma_name_label(other, other_moniker, i);
    }
    lemma_container_label(one);
    lemma_container_label(other);
    lemma_parts_split(context[0], name, container, other_context[0], other_name, other_container);
}

proof fn lemma_moniker_unique(one: Moniker, other: Moniker)
    requires
        moniker_parts(one) == moniker_parts(other),
    ensures
        is_same_moniker(one, other),
{
    reveal(moniker_parts);
    let parts = moniker_parts(one);
    let other_parts = moniker_parts(other);
    let path = one.identifier.description@;
    let other_path = other.identifier.description@;
    lemma_descriptor_labels(path, path.len() as int);
    lemma_descriptor_labels(other_path, other_path.len() as int);
    assert(parts[0] == other_parts[0] && parts[1] == other_parts[1]);
    assert(parts[2] == other_parts[2] && parts[3] == other_parts[3]);
    let steps = descriptor_parts(path, path.len() as int);
    let other_steps = descriptor_parts(other_path, other_path.len() as int);
    assert(steps =~= parts.skip(4));
    assert(other_steps =~= other_parts.skip(4));
    assert forall|i: int| 0 <= i < path.len() implies descriptor_name((#[trigger] path[i]).desc)
        == descriptor_name((#[trigger] other_path[i]).desc) && path[i].name@
        == other_path[i].name@ by {
        assert(steps[2 * i] == other_steps[2 * i]);
        assert(steps[2 * i + 1] == other_steps[2 * i + 1]);
    }
}

proof fn lemma_local_unique(one: Declaration, other: Declaration)
    requires
        local_parts(one) == local_parts(other),
    ensures
        is_alike_local(one, other),
{
    reveal(local_parts);
    let parts = local_parts(one);
    let other_parts = local_parts(other);
    assert(parts[0] == other_parts[0] && parts[1] == other_parts[1] && parts[2] == other_parts[2]);
}

proof fn lemma_local_count(declaration: Declaration)
    ensures
        local_parts(declaration).len() == 3,
        local_parts(declaration)[2].0 == "syntax"@,
{
    reveal(local_parts);
}

/// Whether two declarations have the same kind and name and the same text stands for where they
/// stand in their scopes.
pub open spec fn is_alike_local(one: Declaration, other: Declaration) -> bool {
    &&& kind_name(one.kind) == kind_name(other.kind)
    &&& text_or_empty(one.name.deep_view()) == text_or_empty(other.name.deep_view())
    &&& syntax_text(one.syntax) == syntax_text(other.syntax)
}

/// Whether the names of two declarations are alike: both have the same name across packages, or
/// both have none and are alike in the same scope, or in the declarations with one identity around
/// them.
pub open spec fn is_alike_name(
    one: Declaration,
    one_moniker: Option<MonikerResult>,
    other: Declaration,
    other_moniker: Option<MonikerResult>,
) -> bool {
    match (one_moniker, other_moniker) {
        (Some(MonikerResult::Moniker(moniker)), Some(MonikerResult::Moniker(other_moniker))) => {
            is_same_moniker(moniker, other_moniker)
        },
        (
            Some(MonikerResult::Local { enclosing_moniker }),
            Some(MonikerResult::Local { enclosing_moniker: other_enclosing }),
        ) => is_same_scope(enclosing_moniker, other_enclosing) && is_alike_local(one, other),
        (None, None) => {
            &&& is_alike_local(one, other)
            &&& has_known_owner(one) == has_known_owner(other)
            &&& has_known_owner(one) ==> identity_of(
                one.owner->0.declaration,
                one.owner->0.moniker,
            ) == identity_of(other.owner->0.declaration, other.owner->0.moniker)
        },
        _ => false,
    }
}

/// Whether two declarations are items of the same: of nothing, of traits with one identity, or of
/// implementations for the same type and of traits with one identity, or of none.
pub open spec fn is_alike_container(one: Declaration, other: Declaration) -> bool {
    match (one.container, other.container) {
        (None, None) => true,
        (Some(Container::Trait(owner)), Some(Container::Trait(other_owner))) => identity_of(
            owner.declaration,
            owner.moniker,
        ) == identity_of(other_owner.declaration, other_owner.moniker),
        (
            Some(Container::Impl { self_type, implemented }),
            Some(Container::Impl { self_type: other_type, implemented: other_implemented }),
        ) => {
            &&& self_type@ == other_type@
            &&& match (implemented, other_implemented) {
                (None, None) => true,
                (Some(owner), Some(other_owner)) => identity_of(owner.declaration, owner.moniker)
                    == identity_of(other_owner.declaration, other_owner.moniker),
                _ => false,
            }
        },
        _ => false,
    }
}

proof fn lemma_scope_unique(
    one: Declaration,
    one_scope: Option<Moniker>,
    other: Declaration,
    other_scope: Option<Moniker>,
)
    requires
        scope_parts(one_scope) + local_parts(one) == scope_parts(other_scope) + local_parts(other),
    ensures
        is_same_scope(one_scope, other_scope),
        is_alike_local(one, other),
{
    let scope = scope_parts(one_scope);
    let other_scope_parts = scope_parts(other_scope);
    lemma_local_count(one);
    lemma_local_count(other);
    assert((scope + local_parts(one)).len() == scope.len() + 3);
    assert((other_scope_parts + local_parts(other)).len() == other_scope_parts.len() + 3);
    let none = Seq::<Part>::empty();
    assert(none + scope + local_parts(one) =~= scope + local_parts(one));
    assert(none + other_scope_parts + local_parts(other) =~= other_scope_parts + local_parts(
        other,
    ));
    lemma_parts_cut(none, scope, local_parts(one), none, other_scope_parts, local_parts(other));
    reveal(scope_parts);
    lemma_local_unique(one, other);
    match (one_scope, other_scope) {
        (Some(moniker), Some(other_moniker)) => {
            lemma_moniker_unique(moniker, other_moniker);
        },
        (None, None) => {},
        _ => {
            reveal(moniker_parts);
            reveal_strlit("scope");
            reveal_strlit("package");
            assert(scope[0].0 == other_scope_parts[0].0);
            assert("scope"@.len() != "package"@.len());
        },
    }
}

proof fn lemma_owner_unique(one: Declaration, other: Declaration)
    requires
        seq![("scope"@, "builtin-or-unresolved"@)] + owner_parts(one) + local_parts(one) == seq![
            ("scope"@, "builtin-or-unresolved"@),
        ] + owner_parts(other) + local_parts(other),
    ensures
        is_alike_name(one, None, other, None),
{
    let scope = seq![("scope"@, "builtin-or-unresolved"@)];
    lemma_local_count(one);
    lemma_local_count(other);
    assert((scope + owner_parts(one) + local_parts(one)).len() == 4 + owner_parts(one).len());
    assert((scope + owner_parts(other) + local_parts(other)).len() == 4 + owner_parts(other).len());
    lemma_parts_cut(
        scope,
        owner_parts(one),
        local_parts(one),
        scope,
        owner_parts(other),
        local_parts(other),
    );
    reveal(owner_parts);
    lemma_local_unique(one, other);
    if has_known_owner(one) {
        assert(owner_parts(one)[0] == owner_parts(other)[0]);
    }
}

proof fn lemma_moniker_last(moniker: Moniker)
    ensures
        moniker_parts(moniker).last().0 == "crate"@ || moniker_parts(moniker).last().0 == "name"@,
{
    reveal(moniker_parts);
    let path = moniker.identifier.description@;
    lemma_descriptor_labels(path, path.len() as int);
    let parts = moniker_parts(moniker);
    if path.len() > 0 {
        assert(parts.last() == descriptor_parts(path, path.len() as int)[2 * path.len() - 1]);
    } else {
        assert(parts.last() == parts[3]);
    }
}

/// A declaration with a name across packages is told from one without.
proof fn lemma_names_apart(
    moniker: Moniker,
    other: Declaration,
    other_moniker: Option<MonikerResult>,
)
    requires
        !(other_moniker matches Some(MonikerResult::Moniker(_))),
    ensures
        moniker_parts(moniker) != name_parts(other, other_moniker),
{
    lemma_moniker_last(moniker);
    reveal(name_parts);
    lemma_local_count(other);
    assert(name_parts(other, other_moniker).last() == local_parts(other)[2]);
    reveal_strlit("crate");
    reveal_strlit("name");
    reveal_strlit("syntax");
    assert("syntax"@.len() != "crate"@.len() && "syntax"@.len() != "name"@.len());
}

/// A declaration in a scope is told from one that is in none.
proof fn lemma_scopes_apart(one: Declaration, scope: Option<Moniker>, other: Declaration)
    ensures
        name_parts(one, Some(MonikerResult::Local { enclosing_moniker: scope })) != name_parts(
            other,
            None,
        ),
{
    let parts = name_parts(one, Some(MonikerResult::Local { enclosing_moniker: scope }));
    let other_parts = name_parts(other, None);
    reveal_strlit("scope");
    reveal_strlit("package");
    reveal_strlit("unresolved");
    reveal_strlit("builtin-or-unresolved");
    reveal(name_parts);
    reveal(scope_parts);
    reveal(moniker_parts);
    assert(parts[0] == scope_parts(scope)[0]);
    assert(other_parts[0] == ("scope"@, "builtin-or-unresolved"@));
    assert("scope"@.len() != "package"@.len());
    assert("unresolved"@.len() != "builtin-or-unresolved"@.len());
}

proof fn lemma_name_unique(
    one: Declaration,
    one_moniker: Option<MonikerResult>,
    other: Declaration,
    other_moniker: Option<MonikerResult>,
)
    requires
        name_parts(one, one_moniker) == name_parts(other, other_moniker),
    ensures
        is_alike_name(one, one_moniker, other, other_moniker),
{
    reveal(name_parts);
    match (one_moniker, other_moniker) {
        (Some(MonikerResult::Moniker(moniker)), Some(MonikerResult::Moniker(other_moniker))) => {
            lemma_moniker_unique(moniker, other_moniker);
        },
        (Some(MonikerResult::Moniker(moniker)), _) => {
            lemma_names_apart(moniker, other, other_moniker);
        },
        (_, Some(MonikerResult::Moniker(moniker))) => {
            lemma_names_apart(moniker, one, one_moniker);
        },
        (
            Some(MonikerResult::Local { enclosing_moniker }),
            Some(MonikerResult::Local { enclosing_moniker: other_enclosing }),
        ) => {
            lemma_scope_unique(one, enclosing_moniker, other, other_enclosing);
        },
        (Some(MonikerResult::Local { enclosing_moniker }), None) => {
            lemma_scopes_apart(one, enclosing_moniker, other);
        },
        (None, Some(MonikerResult::Local { enclosing_moniker })) => {
            lemma_scopes_apart(other, enclosing_moniker, one);
        },
        (None, None) => {
            lemma_owner_unique(one, other);
        },
    }
}

/// An identity is not the word that stands for no trait.
proof fn lemma_identity_start(declaration: Declaration, moniker: Option<MonikerResult>)
    ensures
        identity_of(declaration, moniker) != "inherent"@,
{
    reveal_strlit("rust-hir-v1");
    reveal_strlit("inherent");
    assert(identity_of(declaration, moniker)[0] == 'r');
}

/// What stands for the trait of an implementation.
spec fn trait_text(implemented: Option<Box<NamedDeclaration>>) -> Seq<char> {
    match implemented {
        Some(owner) => identity_of(owner.declaration, owner.moniker),
        None => "inherent"@,
    }
}

proof fn lemma_trait_unique(
    implemented: Option<Box<NamedDeclaration>>,
    other: Option<Box<NamedDeclaration>>,
)
    requires
        trait_text(implemented) == trait_text(other),
    ensures
        implemented is Some == other is Some,
{
    if implemented is Some {
        lemma_identity_start(implemented->0.declaration, implemented->0.moniker);
    }
    if other is Some {
        lemma_identity_start(other->0.declaration, other->0.moniker);
    }
}

proof fn lemma_container_unique(one: Declaration, other: Declaration)
    requires
        container_parts(one) == container_parts(other),
    ensures
        is_alike_container(one, other),
{
    reveal(container_parts);
    let parts = container_parts(one);
    let other_parts = container_parts(other);
    assert(parts.len() == other_parts.len());
    match one.container {
        None => {},
        Some(Container::Trait(owner)) => {
            assert(parts.len() == 1 && parts[0].1 == identity_of(owner.declaration, owner.moniker));
            match other.container {
                Some(Container::Trait(other_owner)) => {
                    assert(other_parts[0].1 == identity_of(
                        other_owner.declaration,
                        other_owner.moniker,
                    ));
                },
                _ => {},
            }
        },
        Some(Container::Impl { self_type, implemented }) => {
            assert(parts.len() == 2 && parts[0].1 == self_type@ && parts[1].1 == trait_text(
                implemented,
            ));
            match other.container {
                Some(Container::Impl { self_type: other_type, implemented: other_implemented }) => {
                    assert(other_parts[0].1 == other_type@ && other_parts[1].1 == trait_text(
                        other_implemented,
                    ));
                    lemma_trait_unique(implemented, other_implemented);
                },
                _ => {},
            }
        },
    }
}

/// Identities tell declarations apart: where two identities are the same, the declarations belong to
/// contexts with one digest, have names that are alike, and are items of the same. So two
/// declarations of which any of these differs have different identities.
pub proof fn law_identities_tell_apart(
    one: Declaration,
    one_moniker: Option<MonikerResult>,
    other: Declaration,
    other_moniker: Option<MonikerResult>,
)
    ensures
        identity_of(one, one_moniker) == identity_of(other, other_moniker) <==> {
            &&& declaration_context(one) == declaration_context(other)
            &&& is_alike_name(one, one_moniker, other, other_moniker)
            &&& is_alike_container(one, other)
        },
{
    if identity_of(one, one_moniker) == identity_of(other, other_moniker) {
        lemma_identity_unique(one, one_moniker, other, other_moniker);
        lemma_name_unique(one, one_moniker, other, other_moniker);
        lemma_container_unique(one, other);
    }
    if is_alike_name(one, one_moniker, other, other_moniker) {
        match (one_moniker, other_moniker) {
            (
                Some(MonikerResult::Moniker(moniker)),
                Some(MonikerResult::Moniker(other_moniker)),
            ) => {
                lemma_same_moniker(moniker, other_moniker);
            },
            (
                Some(MonikerResult::Local { enclosing_moniker }),
                Some(MonikerResult::Local { enclosing_moniker: other_enclosing }),
            ) => {
                if enclosing_moniker is Some {
                    lemma_same_moniker(enclosing_moniker->0, other_enclosing->0);
                }
            },
            _ => {},
        }
        assert(name_components(one, one_moniker) == name_components(other, other_moniker));
    }
    if is_alike_container(one, other) {
        assert(container_components(one) == container_components(other));
    }
}

} // verus!
