//! How declarations relate to each other: supertraits, implementations and overridden items.

use rustc_hash::FxHashSet;
use vstd::prelude::*;
use vstd::string::*;

use crate::exports::{Visibility, full_name, is_effectively_exported, is_visible, qualified_name};
use crate::files::FileId;
use crate::fx::set_contains;
use crate::identity::{NamedDeclaration, identity_of, stable_definition_id};
use crate::modules::ModuleFacts;
use crate::order::Key;
use crate::plain::Plain;
use crate::static_index::{StaticRelation, StaticRelationKind, StaticRelationModel};
use crate::table::{Table, lemma_ordered, lemma_ordered_lists, ordered, ordered_keys};

verus! {

/// The file that holds a declaration.
#[derive(Debug, Clone, Copy, PartialEq, Eq, Structural)]
pub struct Home {
    pub file_id: FileId,
    /// Whether the file belongs to a library.
    pub library: bool,
}

/// A declaration that another one relates to.
#[derive(Debug)]
pub struct RelationEnd {
    pub named: NamedDeclaration,
    pub display_name: Option<String>,
    pub signature: String,
    pub home: Option<Home>,
    pub visibility: Visibility,
}

/// The kind of an item of a trait or of an implementation.
#[derive(Debug, Clone, Copy, PartialEq, Eq, Structural)]
pub enum AssocItemKind {
    Function,
    Const,
    TypeAlias,
}

/// An item of a trait or of an implementation.
#[derive(Debug)]
pub struct AssocItem {
    pub kind: AssocItemKind,
    pub name: Option<String>,
    pub definition: RelationEnd,
}

/// A trait.
#[derive(Debug)]
pub struct TraitFacts {
    pub definition: RelationEnd,
    pub supertraits: Vec<RelationEnd>,
}

/// The trait that an implementation is for.
#[derive(Debug)]
pub struct ImplementedTrait {
    pub definition: RelationEnd,
    pub items: Vec<AssocItem>,
}

/// An implementation.
#[derive(Debug)]
pub struct ImplFacts {
    pub implemented: Option<ImplementedTrait>,
    /// The declared type that the implementation is for.
    pub implementor: Option<RelationEnd>,
    pub items: Vec<AssocItem>,
}

/// The relation from one declaration to another.
pub open spec fn relation_of(
    file_id: FileId,
    from: RelationEnd,
    to: RelationEnd,
    kind: StaticRelationKind,
) -> StaticRelationModel {
    StaticRelationModel {
        file_id,
        from: identity_of(from.named.declaration, from.named.moniker),
        to: identity_of(to.named.declaration, to.named.moniker),
        to_display_name: to.display_name.deep_view(),
        to_qualified_name: full_name(to.named.moniker, to.display_name.deep_view()),
        to_signature: to.signature@,
        to_kind: to.named.declaration.kind,
        to_external: match to.home {
            Some(home) => home.library,
            None => true,
        },
        to_exported: is_visible(to.visibility),
        to_definition_file: match to.home {
            Some(home) => Some(home.file_id),
            None => None,
        },
        kind,
    }
}

/// The relation from one declaration to another.
pub fn relation(
    file_id: FileId,
    from: &RelationEnd,
    to: &RelationEnd,
    kind: StaticRelationKind,
) -> (relation: StaticRelation)
    ensures
        relation.deep_view() == relation_of(file_id, *from, *to, kind),
{
    StaticRelation {
        file_id,
        from: stable_definition_id(&from.named.declaration, &from.named.moniker),
        to: stable_definition_id(&to.named.declaration, &to.named.moniker),
        to_display_name: to.display_name.duplicate(),
        to_qualified_name: qualified_name(&to.named.moniker, &to.display_name),
        to_signature: to.signature.clone(),
        to_kind: to.named.declaration.kind,
        to_external: match to.home {
            Some(home) => home.library,
            None => true,
        },
        to_exported: is_effectively_exported(&to.visibility),
        to_definition_file: match to.home {
            Some(home) => Some(home.file_id),
            None => None,
        },
        kind,
    }
}

/// Whether two items are of the same kind.
pub fn same_assoc_item_kind(left: AssocItemKind, right: AssocItemKind) -> (equal: bool)
    ensures
        equal == (left == right),
{
    match (left, right) {
        (AssocItemKind::Function, AssocItemKind::Function) => true,
        (AssocItemKind::Const, AssocItemKind::Const) => true,
        (AssocItemKind::TypeAlias, AssocItemKind::TypeAlias) => true,
        _ => false,
    }
}

/// The first item of a trait, from a position on, that an item of an implementation overrides:
/// one of the same kind and name.
pub open spec fn overridden(items: Seq<AssocItem>, item: AssocItem, from: int) -> Option<int>
    decreases items.len() - from,
{
    if from < 0 || from >= items.len() || item.name is None {
        None
    } else if items[from].kind == item.kind && items[from].name.deep_view()
        == item.name.deep_view() {
        Some(from)
    } else {
        overridden(items, item, from + 1)
    }
}

fn find_overridden<'a>(items: &'a Vec<AssocItem>, item: &AssocItem) -> (found: Option<&'a AssocItem>)
    ensures
        match found {
            Some(found) => {
                let at = overridden(items@, *item, 0);
                at is Some && 0 <= at->Some_0 < items@.len() && items@[at->Some_0] == *found
            },
            None => overridden(items@, *item, 0) is None,
        },
{
    if item.name.is_none() {
        return None;
    }
    let mut index: usize = 0;
    while index < items.len()
        invariant
            index <= items.len(),
            item.name is Some,
            overridden(items@, *item, 0) == overridden(items@, *item, index as int),
        decreases items.len() - index,
    {
        if same_assoc_item_kind(items[index].kind, item.kind) && items[index].name.same(
            &item.name,
        ) {
            return Some(&items[index]);
        }
        index += 1;
    }
    None
}

/// The relations of a trait to its first supertraits.
pub open spec fn supertrait_relations(file_id: FileId, facts: TraitFacts, count: int) -> Set<
    StaticRelationModel,
> {
    Set::new(
        |found: StaticRelationModel|
            exists|i: int|
                0 <= i < count && found == relation_of(
                    file_id,
                    facts.definition,
                    #[trigger] facts.supertraits@[i],
                    StaticRelationKind::Extends,
                ),
    )
}

/// The relation of the implementing type to the trait.
pub open spec fn implements_relation(file_id: FileId, facts: ImplFacts) -> Set<StaticRelationModel> {
    match (facts.implemented, facts.implementor) {
        (Some(implemented), Some(implementor)) => set![
            relation_of(
                file_id,
                implementor,
                implemented.definition,
                StaticRelationKind::Implements,
            ),
        ],
        _ => Set::empty(),
    }
}

/// The relation of an item of an implementation to the item that it overrides.
pub open spec fn override_relation(
    file_id: FileId,
    implemented: ImplementedTrait,
    item: AssocItem,
) -> Option<StaticRelationModel> {
    match overridden(implemented.items@, item, 0) {
        Some(at) => Some(
            relation_of(
                file_id,
                item.definition,
                implemented.items@[at].definition,
                StaticRelationKind::Overrides,
            ),
        ),
        None => None,
    }
}

/// The relations of the first items of an implementation to what they override.
pub open spec fn override_relations(file_id: FileId, facts: ImplFacts, count: int) -> Set<
    StaticRelationModel,
> {
    Set::new(
        |found: StaticRelationModel|
            facts.implemented is Some && exists|i: int|
                0 <= i < count && override_relation(
                    file_id,
                    facts.implemented->Some_0,
                    #[trigger] facts.items@[i],
                ) == Some(found),
    )
}

/// The relations of an implementation.
pub open spec fn impl_relations(file_id: FileId, facts: ImplFacts) -> Set<StaticRelationModel> {
    implements_relation(file_id, facts).union(
        override_relations(file_id, facts, facts.items@.len() as int),
    )
}

/// The relations of the first traits of a module.
pub open spec fn trait_relations_of(module: ModuleFacts, count: int) -> Set<StaticRelationModel> {
    Set::new(
        |found: StaticRelationModel|
            exists|i: int|
                0 <= i < count && supertrait_relations(
                    module.file_id,
                    #[trigger] module.traits@[i],
                    module.traits@[i].supertraits@.len() as int,
                ).contains(found),
    )
}

/// The relations of the first implementations of a module.
pub open spec fn impl_relations_of(module: ModuleFacts, count: int) -> Set<StaticRelationModel> {
    Set::new(
        |found: StaticRelationModel|
            exists|i: int|
                0 <= i < count && impl_relations(
                    module.file_id,
                    #[trigger] module.impls@[i],
                ).contains(found),
    )
}

/// Whether the relations of a module are wanted: it is not part of a library, and it lies in one
/// of the wanted files.
pub open spec fn is_wanted(module: ModuleFacts, files: Option<Set<u32>>) -> bool {
    &&& !module.library
    &&& match files {
        Some(files) => files.contains(module.file_id.0),
        None => true,
    }
}

/// The relations of a module, if they are wanted.
pub open spec fn module_relations(module: ModuleFacts, files: Option<Set<u32>>) -> Set<
    StaticRelationModel,
> {
    if is_wanted(module, files) {
        trait_relations_of(module, module.traits@.len() as int).union(
            impl_relations_of(module, module.impls@.len() as int),
        )
    } else {
        Set::empty()
    }
}

/// The relations of the first modules.
pub open spec fn relations_among(
    modules: Seq<ModuleFacts>,
    files: Option<Set<u32>>,
    count: int,
) -> Set<StaticRelationModel> {
    Set::new(
        |found: StaticRelationModel|
            exists|i: int|
                0 <= i < count && module_relations(#[trigger] modules[i], files).contains(found),
    )
}

/// A set as a map without values.
pub open spec fn members<T>(set: Set<T>) -> Map<T, ()> {
    Map::new(|member: T| set.contains(member), |member: T| ())
}

/// The relations of modules in increasing order.
pub open spec fn sorted_relations(modules: Seq<ModuleFacts>, files: Option<Set<u32>>) -> Seq<
    StaticRelationModel,
> {
    ordered_keys::<StaticRelation, ()>(
        members(relations_among(modules, files, modules.len() as int)),
    )
}

fn insert_trait(known: &mut Table<StaticRelation, ()>, file_id: FileId, facts: &TraitFacts)
    ensures
        final(known).deep_view().dom() == old(known).deep_view().dom().union(
            supertrait_relations(file_id, *facts, facts.supertraits@.len() as int),
        ),
{
    let ghost start = known.deep_view().dom();
    let mut index: usize = 0;
    assert(start =~= start.union(supertrait_relations(file_id, *facts, 0)));
    while index < facts.supertraits.len()
        invariant
            index <= facts.supertraits.len(),
            known.deep_view().dom() == start.union(
                supertrait_relations(file_id, *facts, index as int),
            ),
        decreases facts.supertraits.len() - index,
    {
        let added = relation(
            file_id,
            &facts.definition,
            &facts.supertraits[index],
            StaticRelationKind::Extends,
        );
        let ghost added_view = added.deep_view();
        known.insert(added, ());
        proof {
            let before = supertrait_relations(file_id, *facts, index as int);
            let after = supertrait_relations(file_id, *facts, index + 1);
            assert forall|found: StaticRelationModel| #[trigger]
                after.contains(found) <==> before.contains(found) || found == added_view by {
                if found == added_view {
                    assert(found == relation_of(
                        file_id,
                        facts.definition,
                        facts.supertraits@[index as int],
                        StaticRelationKind::Extends,
                    ));
                }
            }
            assert(known.deep_view().dom() =~= start.union(after));
        }
        index += 1;
    }
}

fn insert_overrides(
    known: &mut Table<StaticRelation, ()>,
    file_id: FileId,
    facts: &ImplFacts,
    implemented: &ImplementedTrait,
)
    requires
        facts.implemented == Some(*implemented),
    ensures
        final(known).deep_view().dom() == old(known).deep_view().dom().union(
            override_relations(file_id, *facts, facts.items@.len() as int),
        ),
{
    let ghost start = known.deep_view().dom();
    let mut index: usize = 0;
    assert(start =~= start.union(override_relations(file_id, *facts, 0)));
    while index < facts.items.len()
        invariant
            index <= facts.items.len(),
            facts.implemented == Some(*implemented),
            known.deep_view().dom() == start.union(
                override_relations(file_id, *facts, index as int),
            ),
        decreases facts.items.len() - index,
    {
        let item = &facts.items[index];
        let ghost expected = override_relation(file_id, *implemented, *item);
        match find_overridden(&implemented.items, item) {
            Some(declared) => {
                let added = relation(
                    file_id,
                    &item.definition,
                    &declared.definition,
                    StaticRelationKind::Overrides,
                );
                known.insert(added, ());
            },
            None => {},
        }
        proof {
            let before = override_relations(file_id, *facts, index as int);
            let after = override_relations(file_id, *facts, index + 1);
            assert forall|found: StaticRelationModel| #[trigger]
                after.contains(found) <==> before.contains(found) || expected == Some(found) by {
                if expected == Some(found) {
                    assert(override_relation(file_id, *implemented, facts.items@[index as int])
                        == Some(found));
                }
            }
            assert(known.deep_view().dom() =~= start.union(after));
        }
        index += 1;
    }
}

fn insert_impl(known: &mut Table<StaticRelation, ()>, file_id: FileId, facts: &ImplFacts)
    ensures
        final(known).deep_view().dom() == old(known).deep_view().dom().union(
            impl_relations(file_id, *facts),
        ),
{
    let ghost start = known.deep_view().dom();
    match &facts.implemented {
        None => {
            assert(start =~= start.union(impl_relations(file_id, *facts)));
        },
        Some(implemented) => {
            match &facts.implementor {
                Some(implementor) => {
                    let added = relation(
                        file_id,
                        implementor,
                        &implemented.definition,
                        StaticRelationKind::Implements,
                    );
                    known.insert(added, ());
                },
                None => {},
            }
            assert(known.deep_view().dom() =~= start.union(implements_relation(file_id, *facts)));
            insert_overrides(known, file_id, facts, implemented);
            assert(known.deep_view().dom() =~= start.union(impl_relations(file_id, *facts)));
        },
    }
}

proof fn lemma_trait_step(module: ModuleFacts, count: int)
    requires
        0 <= count < module.traits@.len(),
    ensures
        trait_relations_of(module, count + 1) == trait_relations_of(module, count).union(
            supertrait_relations(
                module.file_id,
                module.traits@[count],
                module.traits@[count].supertraits@.len() as int,
            ),
        ),
{
    let before = trait_relations_of(module, count);
    let after = trait_relations_of(module, count + 1);
    let added = supertrait_relations(
        module.file_id,
        module.traits@[count],
        module.traits@[count].supertraits@.len() as int,
    );
    assert forall|found: StaticRelationModel| #[trigger]
        after.contains(found) <==> before.contains(found) || added.contains(found) by {
        if added.contains(found) {
            assert(supertrait_relations(
                module.file_id,
                module.traits@[count],
                module.traits@[count].supertraits@.len() as int,
            ).contains(found));
        }
    }
    assert(after =~= before.union(added));
}

proof fn lemma_impl_step(module: ModuleFacts, count: int)
    requires
        0 <= count < module.impls@.len(),
    ensures
        impl_relations_of(module, count + 1) == impl_relations_of(module, count).union(
            impl_relations(module.file_id, module.impls@[count]),
        ),
{
    let before = impl_relations_of(module, count);
    let after = impl_relations_of(module, count + 1);
    let added = impl_relations(module.file_id, module.impls@[count]);
    assert forall|found: StaticRelationModel| #[trigger]
        after.contains(found) <==> before.contains(found) || added.contains(found) by {
        if added.contains(found) {
            assert(impl_relations(module.file_id, module.impls@[count]).contains(found));
        }
    }
    assert(after =~= before.union(added));
}

proof fn lemma_module_step(modules: Seq<ModuleFacts>, files: Option<Set<u32>>, count: int)
    requires
        0 <= count < modules.len(),
    ensures
        relations_among(modules, files, count + 1) == relations_among(modules, files, count).union(
            module_relations(modules[count], files),
        ),
{
    let before = relations_among(modules, files, count);
    let after = relations_among(modules, files, count + 1);
    let added = module_relations(modules[count], files);
    assert forall|found: StaticRelationModel| #[trigger]
        after.contains(found) <==> before.contains(found) || added.contains(found) by {
        if added.contains(found) {
            assert(module_relations(modules[count], files).contains(found));
        }
    }
    assert(after =~= before.union(added));
}

fn insert_module(known: &mut Table<StaticRelation, ()>, module: &ModuleFacts)
    ensures
        final(known).deep_view().dom() == old(known).deep_view().dom().union(
            trait_relations_of(*module, module.traits@.len() as int),
        ).union(impl_relations_of(*module, module.impls@.len() as int)),
{
    let ghost start = known.deep_view().dom();
    let mut index: usize = 0;
    assert(start =~= start.union(trait_relations_of(*module, 0)));
    while index < module.traits.len()
        invariant
            index <= module.traits.len(),
            known.deep_view().dom() == start.union(trait_relations_of(*module, index as int)),
        decreases module.traits.len() - index,
    {
        let ghost before = trait_relations_of(*module, index as int);
        insert_trait(known, module.file_id, &module.traits[index]);
        proof {
            lemma_trait_step(*module, index as int);
            let facts = module.traits@[index as int];
            let added = supertrait_relations(
                module.file_id,
                facts,
                facts.supertraits@.len() as int,
            );
            assert(start.union(before).union(added) =~= start.union(before.union(added)));
        }
        index += 1;
    }
    let ghost middle = known.deep_view().dom();
    let mut index: usize = 0;
    assert(middle =~= middle.union(impl_relations_of(*module, 0)));
    while index < module.impls.len()
        invariant
            index <= module.impls.len(),
            known.deep_view().dom() == middle.union(impl_relations_of(*module, index as int)),
        decreases module.impls.len() - index,
    {
        let ghost before = impl_relations_of(*module, index as int);
        insert_impl(known, module.file_id, &module.impls[index]);
        proof {
            lemma_impl_step(*module, index as int);
            let added = impl_relations(module.file_id, module.impls@[index as int]);
            assert(middle.union(before).union(added) =~= middle.union(before.union(added)));
        }
        index += 1;
    }
}

proof fn lemma_supertraits_finite(file_id: FileId, facts: TraitFacts, count: int)
    ensures
        supertrait_relations(file_id, facts, count).finite(),
    decreases count,
{
    let all = supertrait_relations(file_id, facts, count);
    if count > 0 {
        lemma_supertraits_finite(file_id, facts, count - 1);
        let added = relation_of(
            file_id,
            facts.definition,
            facts.supertraits@[count - 1],
            StaticRelationKind::Extends,
        );
        let bound = supertrait_relations(file_id, facts, count - 1).insert(added);
        assert(all.subset_of(bound));
        vstd::set_lib::lemma_set_subset_finite(bound, all);
    } else {
        assert(all =~= Set::empty());
    }
}

proof fn lemma_overrides_finite(file_id: FileId, facts: ImplFacts, count: int)
    ensures
        override_relations(file_id, facts, count).finite(),
    decreases count,
{
    let all = override_relations(file_id, facts, count);
    if count > 0 && facts.implemented is Some {
        lemma_overrides_finite(file_id, facts, count - 1);
        let before = override_relations(file_id, facts, count - 1);
        let bound = match override_relation(
            file_id,
            facts.implemented->Some_0,
            facts.items@[count - 1],
        ) {
            Some(added) => before.insert(added),
            None => before,
        };
        assert(all.subset_of(bound));
        vstd::set_lib::lemma_set_subset_finite(bound, all);
    } else {
        assert(all =~= Set::empty());
    }
}

proof fn lemma_traits_finite(module: ModuleFacts, count: int)
    requires
        0 <= count <= module.traits@.len(),
    ensures
        trait_relations_of(module, count).finite(),
    decreases count,
{
    if count > 0 {
        lemma_traits_finite(module, count - 1);
        lemma_trait_step(module, count - 1);
        lemma_supertraits_finite(
            module.file_id,
            module.traits@[count - 1],
            module.traits@[count - 1].supertraits@.len() as int,
        );
    } else {
        assert(trait_relations_of(module, 0) =~= Set::empty());
    }
}

proof fn lemma_impls_finite(module: ModuleFacts, count: int)
    requires
        0 <= count <= module.impls@.len(),
    ensures
        impl_relations_of(module, count).finite(),
    decreases count,
{
    if count > 0 {
        lemma_impls_finite(module, count - 1);
        lemma_impl_step(module, count - 1);
        let facts = module.impls@[count - 1];
        lemma_overrides_finite(module.file_id, facts, facts.items@.len() as int);
        assert(implements_relation(module.file_id, facts).finite());
    } else {
        assert(impl_relations_of(module, 0) =~= Set::empty());
    }
}

/// Modules have finitely many relations.
proof fn lemma_relations_finite(modules: Seq<ModuleFacts>, files: Option<Set<u32>>, count: int)
    requires
        0 <= count <= modules.len(),
    ensures
        relations_among(modules, files, count).finite(),
    decreases count,
{
    if count > 0 {
        lemma_relations_finite(modules, files, count - 1);
        lemma_module_step(modules, files, count - 1);
        let module = modules[count - 1];
        lemma_traits_finite(module, module.traits@.len() as int);
        lemma_impls_finite(module, module.impls@.len() as int);
    } else {
        assert(relations_among(modules, files, 0) =~= Set::empty());
    }
}

/// The relations that are listed are exactly those of the modules that are wanted, each of which
/// lies in the file of its module.
pub proof fn lemma_sorted_relations(modules: Seq<ModuleFacts>, files: Option<Set<u32>>)
    ensures
        forall|relation: StaticRelationModel| #[trigger]
            sorted_relations(modules, files).contains(relation) <==> relations_among(
                modules,
                files,
                modules.len() as int,
            ).contains(relation),
        forall|relation: StaticRelationModel| #[trigger]
            sorted_relations(modules, files).contains(relation) ==> exists|i: int|
                0 <= i < modules.len() && is_wanted(#[trigger] modules[i], files)
                    && modules[i].file_id == relation.file_id,
{
    let among = relations_among(modules, files, modules.len() as int);
    let map = members(among);
    lemma_relations_finite(modules, files, modules.len() as int);
    assert(map.dom() =~= among);
    lemma_ordered_lists::<StaticRelation, ()>(map);
    let listing = ordered::<StaticRelation, ()>(map);
    let sorted = sorted_relations(modules, files);
    assert forall|relation: StaticRelationModel| #[trigger]
        sorted.contains(relation) <==> among.contains(relation) by {
        if sorted.contains(relation) {
            let i = choose|i: int| 0 <= i < sorted.len() && sorted[i] == relation;
            assert(listing[i].0 == relation);
        }
        if among.contains(relation) {
            assert(map.contains_key(relation));
            let i = choose|i: int| 0 <= i < listing.len() && (#[trigger] listing[i]).0 == relation;
            assert(sorted[i] == relation);
        }
    }
}

/// Relations that are in increasing order.
spec fn are_increasing(relations: Seq<StaticRelationModel>) -> bool {
    forall|i: int, j: int|
        0 <= i < j < relations.len() ==> <StaticRelation as Key>::before(
            #[trigger] relations[i],
            #[trigger] relations[j],
        )
}

proof fn lemma_filtered(
    relations: Seq<StaticRelationModel>,
    kept: spec_fn(StaticRelationModel) -> bool,
)
    requires
        are_increasing(relations),
    ensures
        are_increasing(relations.filter(kept)),
        forall|relation: StaticRelationModel| #[trigger]
            relations.filter(kept).contains(relation) <==> relations.contains(relation) && kept(
                relation,
            ),
    decreases relations.len(),
{
    reveal(Seq::filter);
    if relations.len() > 0 {
        let last = relations.last();
        let shorter = relations.drop_last();
        let before = shorter.filter(kept);
        let all = relations.filter(kept);
        lemma_filtered(shorter, kept);
        assert(relations =~= shorter.push(last));
        assert forall|i: int, j: int| 0 <= i < j < all.len() implies <StaticRelation as Key>::before(
            #[trigger] all[i],
            #[trigger] all[j],
        ) by {
            if j == before.len() {
                assert(before.contains(before[i]));
                assert(shorter.contains(before[i]));
                let k = choose|k: int| 0 <= k < shorter.len() && shorter[k] == before[i];
                assert(<StaticRelation as Key>::before(relations[k], relations[relations.len() - 1]));
            }
        }
        assert forall|relation: StaticRelationModel| #[trigger]
            all.contains(relation) <==> relations.contains(relation) && kept(relation) by {
            if relations.contains(relation) && kept(relation) {
                let k = choose|k: int| 0 <= k < relations.len() && relations[k] == relation;
                if k < shorter.len() {
                    assert(shorter[k] == relation);
                    assert(before.contains(relation));
                    let l = choose|l: int| 0 <= l < before.len() && before[l] == relation;
                    assert(all[l] == relation);
                } else {
                    assert(all[before.len() as int] == relation);
                }
            }
            if all.contains(relation) {
                let l = choose|l: int| 0 <= l < all.len() && all[l] == relation;
                if l < before.len() {
                    assert(before[l] == relation);
                    assert(before.contains(relation));
                    let k = choose|k: int| 0 <= k < shorter.len() && shorter[k] == relation;
                    assert(relations[k] == relation);
                } else {
                    assert(relations[relations.len() - 1] == relation);
                }
            }
        }
    }
}

/// The relations that are limited to files are those of all relations that lie in these files, in the
/// same order.
pub proof fn law_limited_relations_are_filtered(modules: Seq<ModuleFacts>, files: Set<u32>)
    ensures
        sorted_relations(modules, Some(files)) == sorted_relations(modules, None).filter(
            |relation: StaticRelationModel| files.contains(relation.file_id.0),
        ),
{
    let count = modules.len() as int;
    let kept = |relation: StaticRelationModel| files.contains(relation.file_id.0);
    let whole = sorted_relations(modules, None);
    let limited = relations_among(modules, Some(files), count);
    let all = relations_among(modules, None, count);
    let filtered = whole.filter(kept);
    lemma_relations_finite(modules, None, count);
    assert(members(all).dom() =~= all);
    lemma_ordered_lists::<StaticRelation, ()>(members(all));
    lemma_sorted_relations(modules, None);
    lemma_filtered(whole, kept);
    assert forall|relation: StaticRelationModel| #[trigger]
        limited.contains(relation) <==> filtered.contains(relation) by {
        lemma_limited(modules, files, relation);
    }
    let listing = filtered.map_values(|relation: StaticRelationModel| (relation, ()));
    assert forall|relation: StaticRelationModel| #[trigger]
        members(limited).contains_key(relation) implies exists|i: int|
        0 <= i < listing.len() && (#[trigger] listing[i]).0 == relation by {
        assert(filtered.contains(relation));
        let i = choose|i: int| 0 <= i < filtered.len() && filtered[i] == relation;
        assert(listing[i].0 == relation);
    }
    assert forall|i: int| 0 <= i < listing.len() implies members(limited).contains_key(
        (#[trigger] listing[i]).0,
    ) by {
        assert(filtered.contains(filtered[i]));
        assert(limited.contains(filtered[i]));
    }
    lemma_ordered::<StaticRelation, ()>(listing, members(limited));
    assert(sorted_relations(modules, Some(files)) =~= filtered);
}

/// A relation is one of the modules in some files where it is one of all modules and lies in these.
proof fn lemma_limited(modules: Seq<ModuleFacts>, files: Set<u32>, relation: StaticRelationModel)
    ensures
        relations_among(modules, Some(files), modules.len() as int).contains(relation)
            <==> relations_among(modules, None, modules.len() as int).contains(relation)
            && files.contains(relation.file_id.0),
{
    let limited = relations_among(modules, Some(files), modules.len() as int);
    let all = relations_among(modules, None, modules.len() as int);
    if limited.contains(relation) {
        let i = choose|i: int|
            0 <= i < modules.len() && module_relations(#[trigger] modules[i], Some(files)).contains(
                relation,
            );
        assert(module_relations(modules[i], None).contains(relation));
        assert(relation.file_id == modules[i].file_id);
    }
    if all.contains(relation) && files.contains(relation.file_id.0) {
        let i = choose|i: int|
            0 <= i < modules.len() && module_relations(#[trigger] modules[i], None).contains(
                relation,
            );
        assert(relation.file_id == modules[i].file_id);
        assert(module_relations(modules[i], Some(files)).contains(relation));
    }
}

/// The facts that a list of references refers to.
pub open spec fn referred(modules: Seq<&ModuleFacts>) -> Seq<ModuleFacts> {
    Seq::new(modules.len(), |i: int| *modules[i])
}

/// The files to which relations are limited.
pub open spec fn limit(files: Option<&FxHashSet<u32>>) -> Option<Set<u32>> {
    match files {
        Some(files) => Some(files@),
        None => None,
    }
}

/// The relations that modules declare, in increasing order and each once. Where files are given,
/// only modules in these count.
pub fn semantic_relations(modules: &Vec<&ModuleFacts>, files: Option<&FxHashSet<u32>>) -> (relations:
    Vec<StaticRelation>)
    ensures
        relations.deep_view() == sorted_relations(referred(modules@), limit(files)),
        forall|i: int, j: int|
            0 <= i < j < relations.deep_view().len() ==> <StaticRelation as Key>::before(
                #[trigger] relations.deep_view()[i],
                #[trigger] relations.deep_view()[j],
            ),
        forall|found: StaticRelationModel| #[trigger]
            relations.deep_view().contains(found) <==> relations_among(
                referred(modules@),
                limit(files),
                modules@.len() as int,
            ).contains(found),
{
    let ghost all = referred(modules@);
    let ghost wanted = limit(files);
    let mut known: Table<StaticRelation, ()> = Table::new();
    let mut index: usize = 0;
    assert(known.deep_view().dom() =~= relations_among(all, wanted, 0));
    while index < modules.len()
        invariant
            index <= modules.len(),
            all == referred(modules@),
            wanted == limit(files),
            known.deep_view().dom() == relations_among(all, wanted, index as int),
        decreases modules.len() - index,
    {
        let module = modules[index];
        let ghost start = known.deep_view().dom();
        let present = match files {
            Some(files) => set_contains(files, module.file_id.0),
            None => true,
        };
        if present && !module.library {
            insert_module(&mut known, module);
        }
        proof {
            lemma_module_step(all, wanted, index as int);
            assert(all[index as int] == *module);
            let traits = trait_relations_of(*module, module.traits@.len() as int);
            let impls = impl_relations_of(*module, module.impls@.len() as int);
            assert(start.union(traits).union(impls) =~= start.union(traits.union(impls)));
            assert(start.union(Set::empty()) =~= start);
        }
        index += 1;
    }
    assert(known.deep_view() =~= members(relations_among(all, wanted, all.len() as int)));
    let mut relations: Vec<StaticRelation> = Vec::new();
    let ghost sorted = sorted_relations(all, wanted);
    let mut index: usize = 0;
    let count = known.len();
    assert(relations.deep_view() =~= sorted.take(0));
    while index < count
        invariant
            index <= count,
            count == sorted.len(),
            sorted == ordered_keys::<StaticRelation, ()>(known.deep_view()),
            relations.deep_view() == sorted.take(index as int),
        decreases count - index,
    {
        let ghost before = relations.deep_view();
        relations.push(known.key_at(index).duplicate());
        proof {
            assert(relations.deep_view() =~= before.push(sorted[index as int]));
            assert(relations.deep_view() =~= sorted.take(index + 1));
        }
        index += 1;
    }
    proof {
        assert(sorted.take(count as int) =~= sorted);
        let listing = ordered::<StaticRelation, ()>(known.deep_view());
        assert forall|i: int, j: int|
            0 <= i < j < sorted.len() implies <StaticRelation as Key>::before(
            #[trigger] sorted[i],
            #[trigger] sorted[j],
        ) by {
            assert(<StaticRelation as Key>::before(listing[i].0, listing[j].0));
        }
        assert forall|found: StaticRelationModel| #[trigger]
            sorted.contains(found) <==> known.deep_view().contains_key(found) by {
            if sorted.contains(found) {
                let i = choose|i: int| 0 <= i < sorted.len() && sorted[i] == found;
                assert(known.deep_view().contains_key(listing[i].0));
            }
            if known.deep_view().contains_key(found) {
                let i = choose|i: int| 0 <= i < listing.len() && (#[trigger] listing[i]).0 == found;
                assert(sorted[i] == found);
            }
        }
    }
    relations
}

} // verus!
