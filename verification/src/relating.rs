//! Which relations between declarations are listed, and which are not.

use vstd::prelude::*;

use crate::exports::{full_name, is_visible};
use crate::files::FileId;
use crate::identity::identity_of;
use crate::modules::ModuleFacts;
use crate::relations::{
    AssocItem, RelationEnd, impl_relations, impl_relations_of, implements_relation,
    lemma_sorted_relations, module_relations, override_relation, override_relations, overridden,
    relation_of, relations_among, sorted_relations, supertrait_relations, trait_relations_of,
};
use crate::static_index::{StaticRelationKind, StaticRelationModel};

verus! {

/// Whether a relation is listed, in a file, from one declaration to another and of a kind, and tells of
/// the other one what it is, whether it lies outside of the workspace, and where it is declared.
pub open spec fn is_listed(
    relations: Seq<StaticRelationModel>,
    file_id: FileId,
    from: RelationEnd,
    to: RelationEnd,
    kind: StaticRelationKind,
) -> bool {
    exists|i: int|
        0 <= i < relations.len() && is_between(#[trigger] relations[i], file_id, from, to, kind)
}

/// Whether a relation leads, in a file, from one declaration to another and is of a kind.
pub open spec fn is_between(
    relation: StaticRelationModel,
    file_id: FileId,
    from: RelationEnd,
    to: RelationEnd,
    kind: StaticRelationKind,
) -> bool {
    &&& relation.file_id == file_id
    &&& relation.kind == kind
    &&& relation.from == identity_of(from.named.declaration, from.named.moniker)
    &&& relation.to == identity_of(to.named.declaration, to.named.moniker)
    &&& relation.to_kind == to.named.declaration.kind
    &&& relation.to_display_name == to.display_name.deep_view()
    &&& relation.to_qualified_name == full_name(to.named.moniker, to.display_name.deep_view())
    &&& relation.to_signature == to.signature@
    &&& relation.to_exported == is_visible(to.visibility)
    &&& to.home is None ==> relation.to_external && relation.to_definition_file is None
    &&& to.home is Some ==> relation.to_external == to.home->0.library
        && relation.to_definition_file == Some(to.home->0.file_id)
}

/// Whether a module is one of the workspace and lies in one of the files, where files are given.
pub open spec fn is_among(module: ModuleFacts, files: Option<Set<u32>>) -> bool {
    !module.library && (files is None || files->0.contains(module.file_id.0))
}

/// Whether two items have a name and share it, and are of one kind.
pub open spec fn are_namesakes(item: AssocItem, other: AssocItem) -> bool {
    &&& item.kind == other.kind
    &&& item.name is Some
    &&& other.name is Some
    &&& item.name->0@ == other.name->0@
}

/// Whether an item is the first one of a trait that has the kind and the name of another item.
pub open spec fn is_first_namesake(items: Seq<AssocItem>, item: AssocItem, at: int) -> bool {
    &&& 0 <= at < items.len()
    &&& are_namesakes(item, items[at])
    &&& forall|i: int| 0 <= i < at ==> !are_namesakes(item, #[trigger] items[i])
}

proof fn lemma_overridden(items: Seq<AssocItem>, item: AssocItem, from: int)
    requires
        0 <= from <= items.len(),
    ensures
        match overridden(items, item, from) {
            Some(at) => from <= at < items.len() && are_namesakes(item, items[at]) && forall|i: int|
                from <= i < at ==> !are_namesakes(item, #[trigger] items[i]),
            None => forall|i: int|
                from <= i < items.len() ==> !are_namesakes(item, #[trigger] items[i]),
        },
    decreases items.len() - from,
{
    if from < items.len() && item.name is Some {
        lemma_overridden(items, item, from + 1);
        assert(items[from].kind == item.kind && items[from].name.deep_view()
            == item.name.deep_view() <==> are_namesakes(item, items[from]));
    }
}

proof fn lemma_listed(
    modules: Seq<ModuleFacts>,
    files: Option<Set<u32>>,
    m: int,
    from: RelationEnd,
    to: RelationEnd,
    kind: StaticRelationKind,
)
    requires
        0 <= m < modules.len(),
        module_relations(modules[m], files).contains(
            relation_of(modules[m].file_id, from, to, kind),
        ),
    ensures
        is_listed(sorted_relations(modules, files), modules[m].file_id, from, to, kind),
{
    let relation = relation_of(modules[m].file_id, from, to, kind);
    let list = sorted_relations(modules, files);
    lemma_sorted_relations(modules, files);
    assert(relations_among(modules, files, modules.len() as int).contains(relation));
    assert(list.contains(relation));
    let i = choose|i: int| 0 <= i < list.len() && list[i] == relation;
    assert(is_between(list[i], modules[m].file_id, from, to, kind));
}

/// Every item of an implementation of a trait that has the kind and the name of an item of the trait,
/// be it a function, a constant or a type, overrides the first such item.
pub proof fn law_namesakes_are_overridden(
    modules: Seq<ModuleFacts>,
    files: Option<Set<u32>>,
    m: int,
    p: int,
    i: int,
    j: int,
)
    requires
        0 <= m < modules.len(),
        is_among(modules[m], files),
        0 <= p < modules[m].impls@.len(),
        modules[m].impls@[p].implemented is Some,
        0 <= i < modules[m].impls@[p].items@.len(),
        0 <= j < modules[m].impls@[p].implemented->0.items@.len(),
        are_namesakes(
            modules[m].impls@[p].items@[i],
            modules[m].impls@[p].implemented->0.items@[j],
        ),
    ensures
        exists|k: int|
            0 <= k <= j && are_namesakes(
                modules[m].impls@[p].items@[i],
                #[trigger] modules[m].impls@[p].implemented->0.items@[k],
            ) && is_listed(
                sorted_relations(modules, files),
                modules[m].file_id,
                modules[m].impls@[p].items@[i].definition,
                modules[m].impls@[p].implemented->0.items@[k].definition,
                StaticRelationKind::Overrides,
            ),
        is_first_namesake(
            modules[m].impls@[p].implemented->0.items@,
            modules[m].impls@[p].items@[i],
            j,
        ) ==> is_listed(
            sorted_relations(modules, files),
            modules[m].file_id,
            modules[m].impls@[p].items@[i].definition,
            modules[m].impls@[p].implemented->0.items@[j].definition,
            StaticRelationKind::Overrides,
        ),
{
    let module = modules[m];
    let facts = module.impls@[p];
    let implemented = facts.implemented->0;
    let item = facts.items@[i];
    lemma_overridden(implemented.items@, item, 0);
    assert(overridden(implemented.items@, item, 0) is Some);
    let k = overridden(implemented.items@, item, 0)->0;
    let found = relation_of(
        module.file_id,
        item.definition,
        implemented.items@[k].definition,
        StaticRelationKind::Overrides,
    );
    assert(override_relation(module.file_id, implemented, item) == Some(found));
    assert(override_relations(module.file_id, facts, facts.items@.len() as int).contains(found));
    assert(impl_relations(module.file_id, facts).contains(found));
    assert(impl_relations_of(module, module.impls@.len() as int).contains(found));
    assert(module_relations(module, files).contains(found));
    lemma_listed(
        modules,
        files,
        m,
        item.definition,
        implemented.items@[k].definition,
        StaticRelationKind::Overrides,
    );
    assert(k <= j);
    if is_first_namesake(implemented.items@, item, j) {
        assert(k == j);
    }
}

/// Every trait of a module extends each of its supertraits.
pub proof fn law_traits_extend(
    modules: Seq<ModuleFacts>,
    files: Option<Set<u32>>,
    m: int,
    t: int,
    s: int,
)
    requires
        0 <= m < modules.len(),
        is_among(modules[m], files),
        0 <= t < modules[m].traits@.len(),
        0 <= s < modules[m].traits@[t].supertraits@.len(),
    ensures
        is_listed(
            sorted_relations(modules, files),
            modules[m].file_id,
            modules[m].traits@[t].definition,
            modules[m].traits@[t].supertraits@[s],
            StaticRelationKind::Extends,
        ),
{
    let module = modules[m];
    let facts = module.traits@[t];
    let found = relation_of(
        module.file_id,
        facts.definition,
        facts.supertraits@[s],
        StaticRelationKind::Extends,
    );
    assert(supertrait_relations(
        module.file_id,
        facts,
        facts.supertraits@.len() as int,
    ).contains(found));
    assert(trait_relations_of(module, module.traits@.len() as int).contains(found));
    assert(module_relations(module, files).contains(found));
    lemma_listed(
        modules,
        files,
        m,
        facts.definition,
        facts.supertraits@[s],
        StaticRelationKind::Extends,
    );
}

/// Every declared type that a trait is implemented for implements the trait.
pub proof fn law_types_implement(
    modules: Seq<ModuleFacts>,
    files: Option<Set<u32>>,
    m: int,
    p: int,
)
    requires
        0 <= m < modules.len(),
        is_among(modules[m], files),
        0 <= p < modules[m].impls@.len(),
        modules[m].impls@[p].implemented is Some,
        modules[m].impls@[p].implementor is Some,
    ensures
        is_listed(
            sorted_relations(modules, files),
            modules[m].file_id,
            modules[m].impls@[p].implementor->0,
            modules[m].impls@[p].implemented->0.definition,
            StaticRelationKind::Implements,
        ),
{
    let module = modules[m];
    let facts = module.impls@[p];
    let found = relation_of(
        module.file_id,
        facts.implementor->0,
        facts.implemented->0.definition,
        StaticRelationKind::Implements,
    );
    assert(implements_relation(module.file_id, facts).contains(found));
    assert(impl_relations(module.file_id, facts).contains(found));
    assert(impl_relations_of(module, module.impls@.len() as int).contains(found));
    assert(module_relations(module, files).contains(found));
    lemma_listed(
        modules,
        files,
        m,
        facts.implementor->0,
        facts.implemented->0.definition,
        StaticRelationKind::Implements,
    );
}

/// Whether a relation is that of a trait of a module to one of its supertraits.
pub open spec fn extends_in(relation: StaticRelationModel, module: ModuleFacts) -> bool {
    exists|t: int, s: int|
        0 <= t < module.traits@.len() && 0 <= s < module.traits@[t].supertraits@.len()
            && is_between(
            relation,
            module.file_id,
            module.traits@[t].definition,
            #[trigger] module.traits@[t].supertraits@[s],
            StaticRelationKind::Extends,
        )
}

/// Whether a relation is that of a type to a trait that a module implements for it.
pub open spec fn implements_in(relation: StaticRelationModel, module: ModuleFacts) -> bool {
    exists|p: int|
        0 <= p < module.impls@.len() && (#[trigger] module.impls@[p]).implemented is Some
            && module.impls@[p].implementor is Some && is_between(
            relation,
            module.file_id,
            module.impls@[p].implementor->0,
            module.impls@[p].implemented->0.definition,
            StaticRelationKind::Implements,
        )
}

/// Whether a relation is that of an item of an implementation in a module to the first item of the
/// trait with its kind and name.
pub open spec fn overrides_in(relation: StaticRelationModel, module: ModuleFacts) -> bool {
    exists|p: int, i: int, j: int|
        0 <= p < module.impls@.len() && module.impls@[p].implemented is Some && 0 <= i
            < module.impls@[p].items@.len() && is_first_namesake(
            module.impls@[p].implemented->0.items@,
            #[trigger] module.impls@[p].items@[i],
            j,
        ) && is_between(
            relation,
            module.file_id,
            module.impls@[p].items@[i].definition,
            (#[trigger] module.impls@[p].implemented->0.items@[j]).definition,
            StaticRelationKind::Overrides,
        )
}

/// No other relations are listed: each is that of a trait to a supertrait, of a type to a trait that
/// is implemented for it, or of an item to the item of the trait that it overrides, in a module of the
/// workspace.
pub proof fn law_relations_are_declared(
    modules: Seq<ModuleFacts>,
    files: Option<Set<u32>>,
    relation: StaticRelationModel,
)
    requires
        sorted_relations(modules, files).contains(relation),
    ensures
        exists|m: int|
            0 <= m < modules.len() && is_among(#[trigger] modules[m], files) && (extends_in(
                relation,
                modules[m],
            ) || implements_in(relation, modules[m]) || overrides_in(relation, modules[m])),
{
    lemma_sorted_relations(modules, files);
    let m = choose|m: int|
        0 <= m < modules.len() && module_relations(#[trigger] modules[m], files).contains(relation);
    let module = modules[m];
    assert(is_among(module, files));
    if trait_relations_of(module, module.traits@.len() as int).contains(relation) {
        let t = choose|t: int|
            0 <= t < module.traits@.len() && supertrait_relations(
                module.file_id,
                #[trigger] module.traits@[t],
                module.traits@[t].supertraits@.len() as int,
            ).contains(relation);
        let facts = module.traits@[t];
        let s = choose|s: int|
            0 <= s < facts.supertraits@.len() && relation == relation_of(
                module.file_id,
                facts.definition,
                #[trigger] facts.supertraits@[s],
                StaticRelationKind::Extends,
            );
        assert(is_between(
            relation,
            module.file_id,
            module.traits@[t].definition,
            module.traits@[t].supertraits@[s],
            StaticRelationKind::Extends,
        ));
    } else {
        let p = choose|p: int|
            0 <= p < module.impls@.len() && impl_relations(
                module.file_id,
                #[trigger] module.impls@[p],
            ).contains(relation);
        let facts = module.impls@[p];
        if implements_relation(module.file_id, facts).contains(relation) {
            assert(is_between(
                relation,
                module.file_id,
                module.impls@[p].implementor->0,
                module.impls@[p].implemented->0.definition,
                StaticRelationKind::Implements,
            ));
        } else {
            let implemented = facts.implemented->0;
            let i = choose|i: int|
                0 <= i < facts.items@.len() && override_relation(
                    module.file_id,
                    implemented,
                    #[trigger] facts.items@[i],
                ) == Some(relation);
            lemma_overridden(implemented.items@, facts.items@[i], 0);
            let j = overridden(implemented.items@, facts.items@[i], 0)->0;
            assert(is_first_namesake(implemented.items@, facts.items@[i], j));
            assert(is_between(
                relation,
                module.file_id,
                module.impls@[p].items@[i].definition,
                module.impls@[p].implemented->0.items@[j].definition,
                StaticRelationKind::Overrides,
            ));
        }
    }
}

} // verus!
