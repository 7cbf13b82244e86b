//! What the fingerprints of interfaces depend on, and what they do not.

use vstd::multiset::Multiset;
use vstd::prelude::*;
use vstd::string::*;

use crate::files::{FileId, SourceFileModel, source_of};
use crate::fingerprints::{
    Entries, definition_entered, definition_entry, export_entry, fingerprint_of,
    interface_fingerprints, is_interface_reference, no_entries, reference_entry,
    references_entered, relation_entry, relation_name, relations_entered, same_interface,
    same_reference, semantic_body, tokens_entered, with_entry,
};
use crate::json::{JsonModel, canonical};
use crate::moniker::{SymbolInformationKind, kind_name};
use crate::nodes::{is_source, reference_kind_name};
use crate::reading::lemma_fields_unambiguous;
use crate::sealing::{collide, law_fingerprint_identifies};
use crate::sorting::{lemma_sorted_unique, lemma_stable_sorted, stable_sorted};
use crate::static_index::{
    ReferenceDataModel, StaticExportDataModel, StaticIndexModel, StaticReferenceRole,
    StaticRelationModel, TokenStaticDataModel,
};
use crate::text::byte_slice;
use crate::wire::Encoded;

verus! {

/// A source file, and the text of an entry of its interface.
pub type Contribution = (Seq<char>, Seq<char>);

/// What the parts of all items of a list come to.
pub open spec fn total<A>(items: Seq<A>, part: spec_fn(A) -> Multiset<Contribution>) -> Multiset<
    Contribution,
>
    decreases items.len(),
{
    if items.len() == 0 {
        Multiset::empty()
    } else {
        total(items.drop_last(), part).add(part(items.last()))
    }
}

proof fn lemma_total_fold<A>(
    items: Seq<A>,
    part: spec_fn(A) -> Multiset<Contribution>,
    start: Multiset<Contribution>,
)
    ensures
        items.fold_right(|item: A, sum: Multiset<Contribution>| sum.add(part(item)), start)
            == start.add(total(items, part)),
    decreases items.len(),
{
    let step = |item: A, sum: Multiset<Contribution>| sum.add(part(item));
    if items.len() == 0 {
        assert(start.add(Multiset::empty()) =~= start);
    } else {
        lemma_total_fold(items.drop_last(), part, start.add(part(items.last())));
        assert(start.add(part(items.last())).add(total(items.drop_last(), part)) =~= start.add(
            total(items, part),
        ));
        assert(items.fold_right(step, start) == items.drop_last().fold_right(
            step,
            step(items.last(), start),
        ));
    }
}

/// The parts come to the same in whichever order the items are listed.
proof fn lemma_total_order<A>(
    items: Seq<A>,
    others: Seq<A>,
    part: spec_fn(A) -> Multiset<Contribution>,
)
    requires
        items.to_multiset() == others.to_multiset(),
    ensures
        total(items, part) == total(others, part),
{
    let step = |item: A, sum: Multiset<Contribution>| sum.add(part(item));
    let none = Multiset::<Contribution>::empty();
    assert forall|x: A, y: A, v: Multiset<Contribution>| #[trigger]
        step(x, step(y, v)) == step(y, step(x, v)) by {
        assert(v.add(part(y)).add(part(x)) =~= v.add(part(x)).add(part(y)));
    }
    vstd::seq_lib::lemma_fold_right_permutation(items, others, step, none);
    lemma_total_fold(items, part, none);
    lemma_total_fold(others, part, none);
    assert(none.add(total(items, part)) =~= total(items, part));
    assert(none.add(total(others, part)) =~= total(others, part));
}

/// Items whose parts are the same come to the same.
proof fn lemma_total_alike<A>(
    items: Seq<A>,
    part: spec_fn(A) -> Multiset<Contribution>,
    others: Seq<A>,
    other_part: spec_fn(A) -> Multiset<Contribution>,
)
    requires
        items.len() == others.len(),
        forall|i: int| 0 <= i < items.len() ==> part(#[trigger] items[i]) == other_part(others[i]),
    ensures
        total(items, part) == total(others, other_part),
    decreases items.len(),
{
    if items.len() > 0 {
        assert forall|i: int| 0 <= i < items.drop_last().len() implies part(
            #[trigger] items.drop_last()[i],
        ) == other_part(others.drop_last()[i]) by {
            assert(part(items[i]) == other_part(others[i]));
        }
        lemma_total_alike(items.drop_last(), part, others.drop_last(), other_part);
        assert(part(items[items.len() - 1]) == other_part(others[items.len() - 1]));
    }
}

/// Where the part of one item changes, so does what they come to.
proof fn lemma_total_changed<A>(
    items: Seq<A>,
    part: spec_fn(A) -> Multiset<Contribution>,
    others: Seq<A>,
    other_part: spec_fn(A) -> Multiset<Contribution>,
    at: int,
)
    requires
        0 <= at < items.len(),
        items.len() == others.len(),
        forall|i: int|
            0 <= i < items.len() && i != at ==> part(#[trigger] items[i]) == other_part(others[i]),
    ensures
        total(items, part).add(other_part(others[at])) == total(others, other_part).add(
            part(items[at]),
        ),
    decreases items.len(),
{
    let shorter = items.drop_last();
    let other_shorter = others.drop_last();
    let last = items.len() - 1;
    assert forall|i: int| 0 <= i < shorter.len() && i != at implies part(#[trigger] shorter[i])
        == other_part(other_shorter[i]) by {
        assert(part(items[i]) == other_part(others[i]));
    }
    if at == last {
        lemma_total_alike(shorter, part, other_shorter, other_part);
    } else {
        lemma_total_changed(shorter, part, other_shorter, other_part, at);
        assert(part(items[last]) == other_part(others[last]));
        assert(shorter[at] == items[at] && other_shorter[at] == others[at]);
    }
    let one = total(items, part).add(other_part(others[at]));
    let other = total(others, other_part).add(part(items[at]));
    assert forall|x: Contribution| #[trigger] one.count(x) == other.count(x) by {
        if at != last {
            let before = total(shorter, part).add(other_part(others[at]));
            let other_before = total(other_shorter, other_part).add(part(items[at]));
            assert(before.count(x) == other_before.count(x));
        }
    }
    assert(one =~= other);
}

/// Whether a declaration is part of the interface of a source file.
pub open spec fn is_declared(token: TokenStaticDataModel) -> bool {
    !token.local && !token.external && token.definition is Some
}

/// What a declaration contributes by itself.
pub open spec fn definition_part(
    files: Map<FileId, SourceFileModel>,
    token: TokenStaticDataModel,
) -> Multiset<Contribution> {
    if is_declared(token) {
        Multiset::singleton(
            (
                source_of(files, token.definition->0.file_id),
                canonical(definition_entry(files, token)),
            ),
        )
    } else {
        Multiset::empty()
    }
}

/// What a reference to a declaration contributes.
pub open spec fn reference_part(
    files: Map<FileId, SourceFileModel>,
    token: TokenStaticDataModel,
    reference: ReferenceDataModel,
) -> Multiset<Contribution> {
    if is_interface_reference(reference) {
        Multiset::singleton(
            (
                source_of(files, reference.range.file_id),
                canonical(reference_entry(token, reference)),
            ),
        )
    } else {
        Multiset::empty()
    }
}

/// What the references to a declaration contribute.
pub open spec fn references_part(
    files: Map<FileId, SourceFileModel>,
    token: TokenStaticDataModel,
    references: Seq<ReferenceDataModel>,
) -> Multiset<Contribution> {
    total(references, |reference: ReferenceDataModel| reference_part(files, token, reference))
}

/// What a declaration and the references to it contribute.
pub open spec fn token_part(
    files: Map<FileId, SourceFileModel>,
    token: TokenStaticDataModel,
) -> Multiset<Contribution> {
    definition_part(files, token).add(references_part(files, token, token.references))
}

/// What a relation contributes.
pub open spec fn relation_part(
    files: Map<FileId, SourceFileModel>,
    relation: StaticRelationModel,
) -> Multiset<Contribution> {
    Multiset::singleton(
        (source_of(files, relation.file_id), canonical(relation_entry(relation))),
    )
}

/// What declarations contribute.
pub open spec fn tokens_part(
    files: Map<FileId, SourceFileModel>,
    tokens: Seq<TokenStaticDataModel>,
) -> Multiset<Contribution> {
    total(tokens, |token: TokenStaticDataModel| token_part(files, token))
}

/// What relations contribute.
pub open spec fn relations_part(
    files: Map<FileId, SourceFileModel>,
    relations: Seq<StaticRelationModel>,
) -> Multiset<Contribution> {
    total(relations, |relation: StaticRelationModel| relation_part(files, relation))
}

/// What an index contributes to the interfaces of source files.
pub open spec fn contributions(
    files: Map<FileId, SourceFileModel>,
    index: StaticIndexModel,
) -> Multiset<Contribution> {
    tokens_part(files, index.tokens).add(relations_part(files, index.relations))
}

/// Whether contributions lead from entries to others: each adds to its source file, if that has
/// entries.
spec fn leads(before: Entries, parts: Multiset<Contribution>, after: Entries) -> bool {
    &&& after.dom() == before.dom()
    &&& forall|source: Seq<char>, text: Seq<char>|
        before.contains_key(source) ==> #[trigger] after[source].to_multiset().count(text)
            == before[source].to_multiset().count(text) + parts.count((source, text))
}

proof fn lemma_leads_on(
    first: Entries,
    parts: Multiset<Contribution>,
    second: Entries,
    more: Multiset<Contribution>,
    third: Entries,
)
    requires
        leads(first, parts, second),
        leads(second, more, third),
    ensures
        leads(first, parts.add(more), third),
{
    assert forall|source: Seq<char>, text: Seq<char>|
        first.contains_key(source) implies #[trigger] third[source].to_multiset().count(text)
        == first[source].to_multiset().count(text) + parts.add(more).count((source, text)) by {
        assert(second.dom().contains(source));
        assert(second[source].to_multiset().count(text) == first[source].to_multiset().count(text)
            + parts.count((source, text)));
    }
}

proof fn lemma_entry_leads(entries: Entries, source: Seq<char>, entry: JsonModel)
    ensures
        leads(
            entries,
            Multiset::singleton((source, canonical(entry))),
            with_entry(entries, source, entry),
        ),
{
    broadcast use vstd::seq_lib::group_to_multiset_ensures;

    let after = with_entry(entries, source, entry);
    let part = Multiset::<Contribution>::singleton((source, canonical(entry)));
    assert(after.dom() =~= entries.dom());
    assert forall|at: Seq<char>, text: Seq<char>|
        entries.contains_key(at) implies #[trigger] after[at].to_multiset().count(text)
        == entries[at].to_multiset().count(text) + part.count((at, text)) by {
        if at == source {
            assert(after[at] == entries[at].push(canonical(entry)));
        }
        if (at, text) == (source, canonical(entry)) {
            assert(part.count((at, text)) == 1);
        } else {
            assert(part.count((at, text)) == 0);
        }
    }
}

proof fn lemma_definition_leads(
    files: Map<FileId, SourceFileModel>,
    entries: Entries,
    token: TokenStaticDataModel,
)
    ensures
        leads(entries, definition_part(files, token), definition_entered(files, entries, token)),
{
    if is_declared(token) {
        lemma_entry_leads(
            entries,
            source_of(files, token.definition->0.file_id),
            definition_entry(files, token),
        );
    }
}

proof fn lemma_references_lead(
    files: Map<FileId, SourceFileModel>,
    entries: Entries,
    token: TokenStaticDataModel,
    count: int,
)
    requires
        0 <= count <= token.references.len(),
    ensures
        leads(
            entries,
            references_part(files, token, token.references.take(count)),
            references_entered(files, entries, token, count),
        ),
    decreases count,
{
    let some = token.references.take(count);
    if count > 0 {
        lemma_references_lead(files, entries, token, count - 1);
        let before = references_entered(files, entries, token, count - 1);
        let reference = token.references[count - 1];
        assert(some.drop_last() =~= token.references.take(count - 1));
        assert(some.last() == reference);
        if is_interface_reference(reference) {
            lemma_entry_leads(
                before,
                source_of(files, reference.range.file_id),
                reference_entry(token, reference),
            );
        }
        lemma_leads_on(
            entries,
            references_part(files, token, some.drop_last()),
            before,
            reference_part(files, token, reference),
            references_entered(files, entries, token, count),
        );
    }
}

proof fn lemma_tokens_lead(
    files: Map<FileId, SourceFileModel>,
    entries: Entries,
    tokens: Seq<TokenStaticDataModel>,
    count: int,
)
    requires
        0 <= count <= tokens.len(),
    ensures
        leads(
            entries,
            tokens_part(files, tokens.take(count)),
            tokens_entered(files, entries, tokens, count),
        ),
    decreases count,
{
    let some = tokens.take(count);
    if count > 0 {
        lemma_tokens_lead(files, entries, tokens, count - 1);
        let before = tokens_entered(files, entries, tokens, count - 1);
        let token = tokens[count - 1];
        let defined = definition_entered(files, before, token);
        let after = tokens_entered(files, entries, tokens, count);
        assert(some.drop_last() =~= tokens.take(count - 1));
        assert(some.last() == token);
        lemma_definition_leads(files, before, token);
        lemma_references_lead(files, defined, token, token.references.len() as int);
        assert(token.references.take(token.references.len() as int) =~= token.references);
        lemma_leads_on(
            before,
            definition_part(files, token),
            defined,
            references_part(files, token, token.references),
            after,
        );
        lemma_leads_on(
            entries,
            tokens_part(files, some.drop_last()),
            before,
            token_part(files, token),
            after,
        );
    }
}

proof fn lemma_relations_lead(
    files: Map<FileId, SourceFileModel>,
    entries: Entries,
    relations: Seq<StaticRelationModel>,
    count: int,
)
    requires
        0 <= count <= relations.len(),
    ensures
        leads(
            entries,
            relations_part(files, relations.take(count)),
            relations_entered(files, entries, relations, count),
        ),
    decreases count,
{
    let some = relations.take(count);
    if count > 0 {
        lemma_relations_lead(files, entries, relations, count - 1);
        let before = relations_entered(files, entries, relations, count - 1);
        let relation = relations[count - 1];
        assert(some.drop_last() =~= relations.take(count - 1));
        assert(some.last() == relation);
        lemma_entry_leads(before, source_of(files, relation.file_id), relation_entry(relation));
        lemma_leads_on(
            entries,
            relations_part(files, some.drop_last()),
            before,
            relation_part(files, relation),
            relations_entered(files, entries, relations, count),
        );
    }
}

/// The entries of the interface of each indexed source file.
pub open spec fn entries_of(files: Map<FileId, SourceFileModel>, index: StaticIndexModel) -> Entries {
    relations_entered(
        files,
        tokens_entered(
            files,
            no_entries(files, index.files),
            index.tokens,
            index.tokens.len() as int,
        ),
        index.relations,
        index.relations.len() as int,
    )
}

/// The interface of every indexed source file has exactly the entries that the index contributes to
/// it, as often as it contributes them, and no other source file has any.
pub proof fn law_entries_are_the_contributions(
    files: Map<FileId, SourceFileModel>,
    index: StaticIndexModel,
)
    ensures
        forall|source: Seq<char>| #[trigger]
            entries_of(files, index).contains_key(source) <==> is_source(
                files,
                index.files,
                source,
            ),
        forall|source: Seq<char>, text: Seq<char>|
            is_source(files, index.files, source) ==> #[trigger] entries_of(
                files,
                index,
            )[source].to_multiset().count(text) == contributions(files, index).count(
                (source, text),
            ),
        forall|source: Seq<char>| #[trigger]
            interface_fingerprints(files, index).contains_key(source) <==> is_source(
                files,
                index.files,
                source,
            ),
{
    broadcast use vstd::seq_lib::group_to_multiset_ensures;

    let none = no_entries(files, index.files);
    let tokens = index.tokens;
    let relations = index.relations;
    let entered = tokens_entered(files, none, tokens, tokens.len() as int);
    lemma_tokens_lead(files, none, tokens, tokens.len() as int);
    lemma_relations_lead(files, entered, relations, relations.len() as int);
    assert(tokens.take(tokens.len() as int) =~= tokens);
    assert(relations.take(relations.len() as int) =~= relations);
    let all = entries_of(files, index);
    lemma_leads_on(
        none,
        tokens_part(files, tokens),
        entered,
        relations_part(files, relations),
        all,
    );
    assert forall|source: Seq<char>| #[trigger] all.contains_key(source) <==> is_source(
        files,
        index.files,
        source,
    ) by {
        assert(all.dom().contains(source) <==> none.dom().contains(source));
    }
    assert forall|source: Seq<char>, text: Seq<char>|
        is_source(files, index.files, source) implies #[trigger] all[source].to_multiset().count(
        text,
    ) == contributions(files, index).count((source, text)) by {
        assert(none.contains_key(source));
        assert(none[source].to_multiset().count(text) == 0) by {
            assert(none[source] =~= Seq::empty());
            vstd::seq_lib::to_multiset_len(none[source]);
            assert(!none[source].contains(text));
            assert(!none[source].to_multiset().contains(text));
        }
    }
}

/// Source files to which two indexes contribute the same have the same fingerprints.
proof fn lemma_same_contributions(
    files: Map<FileId, SourceFileModel>,
    index: StaticIndexModel,
    other_files: Map<FileId, SourceFileModel>,
    other: StaticIndexModel,
)
    requires
        forall|source: Seq<char>| #[trigger]
            is_source(files, index.files, source) <==> is_source(other_files, other.files, source),
        contributions(files, index) == contributions(other_files, other),
    ensures
        interface_fingerprints(files, index) == interface_fingerprints(other_files, other),
{
    law_entries_are_the_contributions(files, index);
    law_entries_are_the_contributions(other_files, other);
    let one = entries_of(files, index);
    let two = entries_of(other_files, other);
    let left = interface_fingerprints(files, index);
    let right = interface_fingerprints(other_files, other);
    assert forall|source: Seq<char>| #[trigger] left.contains_key(source) implies left[source]
        == right[source] by {
        assert(is_source(files, index.files, source));
        assert(one[source].to_multiset() =~= two[source].to_multiset()) by {
            assert forall|text: Seq<char>|
                one[source].to_multiset().count(text) == two[source].to_multiset().count(text) by {
                assert(is_source(other_files, other.files, source));
            }
        }
        lemma_stable_sorted::<String>(one[source]);
        lemma_stable_sorted::<String>(two[source]);
        lemma_sorted_unique::<String>(
            stable_sorted::<String>(one[source]),
            stable_sorted::<String>(two[source]),
        );
        assert(left[source] == fingerprint_of(one[source]));
        assert(right[source] == fingerprint_of(two[source]));
    }
    assert(left =~= right);
}

/// Whether two declarations are the same but for the order of the references to them.
pub open spec fn is_same_token(token: TokenStaticDataModel, other: TokenStaticDataModel) -> bool {
    &&& other == (TokenStaticDataModel { references: other.references, ..token })
    &&& other.references.to_multiset() == token.references.to_multiset()
}

/// Whether two lists hold the same declarations, in whichever order, with the same references to
/// each, in whichever order.
pub open spec fn are_same_tokens(
    tokens: Seq<TokenStaticDataModel>,
    others: Seq<TokenStaticDataModel>,
) -> bool {
    exists|shuffled: Seq<TokenStaticDataModel>| #[trigger]
        is_shuffled(tokens, shuffled) && shuffled.to_multiset() == others.to_multiset()
}

/// Whether declarations are others of which only the references come in another order.
pub open spec fn is_shuffled(
    tokens: Seq<TokenStaticDataModel>,
    shuffled: Seq<TokenStaticDataModel>,
) -> bool {
    &&& tokens.len() == shuffled.len()
    &&& forall|i: int| 0 <= i < tokens.len() ==> is_same_token(#[trigger] tokens[i], shuffled[i])
}

proof fn lemma_same_token(
    files: Map<FileId, SourceFileModel>,
    token: TokenStaticDataModel,
    other: TokenStaticDataModel,
)
    requires
        is_same_token(token, other),
    ensures
        token_part(files, token) == token_part(files, other),
{
    let part = |reference: ReferenceDataModel| reference_part(files, token, reference);
    let other_part = |reference: ReferenceDataModel| reference_part(files, other, reference);
    lemma_total_order(token.references, other.references, part);
    lemma_total_alike(other.references, part, other.references, other_part);
    assert(definition_entry(files, token) == definition_entry(files, other));
}

/// The fingerprints of interfaces do not depend on the order in which declarations, the references
/// to them, relations and files are listed.
pub proof fn law_fingerprints_ignore_order(
    files: Map<FileId, SourceFileModel>,
    index: StaticIndexModel,
    other: StaticIndexModel,
)
    requires
        forall|source: Seq<char>| #[trigger]
            is_source(files, index.files, source) <==> is_source(files, other.files, source),
        are_same_tokens(index.tokens, other.tokens),
        index.relations.to_multiset() == other.relations.to_multiset(),
    ensures
        interface_fingerprints(files, index) == interface_fingerprints(files, other),
{
    let shuffled = choose|shuffled: Seq<TokenStaticDataModel>| #[trigger]
        is_shuffled(index.tokens, shuffled) && shuffled.to_multiset()
            == other.tokens.to_multiset();
    let part = |token: TokenStaticDataModel| token_part(files, token);
    assert forall|i: int| 0 <= i < index.tokens.len() implies part(#[trigger] index.tokens[i])
        == part(shuffled[i]) by {
        lemma_same_token(files, index.tokens[i], shuffled[i]);
    }
    lemma_total_alike(index.tokens, part, shuffled, part);
    lemma_total_order(shuffled, other.tokens, part);
    lemma_total_order(
        index.relations,
        other.relations,
        |relation: StaticRelationModel| relation_part(files, relation),
    );
    lemma_same_contributions(files, index, files, other);
}

/// The length of a text, with its first and its last character.
spec fn outline(text: Seq<char>) -> (nat, char, char) {
    (text.len(), text[0], text[text.len() - 1])
}

spec fn kind_outline(kind: SymbolInformationKind) -> (nat, char, char) {
    match kind {
        SymbolInformationKind::AssociatedType => (14, 'A', 'e'),
        SymbolInformationKind::Attribute => (9, 'A', 'e'),
        SymbolInformationKind::Constant => (8, 'C', 't'),
        SymbolInformationKind::Enum => (4, 'E', 'm'),
        SymbolInformationKind::EnumMember => (10, 'E', 'r'),
        SymbolInformationKind::Field => (5, 'F', 'd'),
        SymbolInformationKind::Function => (8, 'F', 'n'),
        SymbolInformationKind::Macro => (5, 'M', 'o'),
        SymbolInformationKind::Method => (6, 'M', 'd'),
        SymbolInformationKind::Module => (6, 'M', 'e'),
        SymbolInformationKind::Parameter => (9, 'P', 'r'),
        SymbolInformationKind::SelfParameter => (13, 'S', 'r'),
        SymbolInformationKind::StaticMethod => (12, 'S', 'd'),
        SymbolInformationKind::StaticVariable => (14, 'S', 'e'),
        SymbolInformationKind::Struct => (6, 'S', 't'),
        SymbolInformationKind::Trait => (5, 'T', 't'),
        SymbolInformationKind::TraitMethod => (11, 'T', 'd'),
        SymbolInformationKind::Type => (4, 'T', 'e'),
        SymbolInformationKind::TypeAlias => (9, 'T', 's'),
        SymbolInformationKind::TypeParameter => (13, 'T', 'r'),
        SymbolInformationKind::Union => (5, 'U', 'n'),
        SymbolInformationKind::Variable => (8, 'V', 'e'),
    }
}

proof fn lemma_kind_outline(kind: SymbolInformationKind)
    ensures
        outline(kind_name(kind)) == kind_outline(kind),
{
    reveal_strlit("AssociatedType");
    reveal_strlit("Attribute");
    reveal_strlit("Constant");
    reveal_strlit("Enum");
    reveal_strlit("EnumMember");
    reveal_strlit("Field");
    reveal_strlit("Function");
    reveal_strlit("Macro");
    reveal_strlit("Method");
    reveal_strlit("Module");
    reveal_strlit("Parameter");
    reveal_strlit("SelfParameter");
    reveal_strlit("StaticMethod");
    reveal_strlit("StaticVariable");
    reveal_strlit("Struct");
    reveal_strlit("Trait");
    reveal_strlit("TraitMethod");
    reveal_strlit("Type");
    reveal_strlit("TypeAlias");
    reveal_strlit("TypeParameter");
    reveal_strlit("Union");
    reveal_strlit("Variable");
}

/// Kinds of declarations have distinct names.
pub proof fn law_kinds_have_distinct_names(one: SymbolInformationKind, other: SymbolInformationKind)
    requires
        one != other,
    ensures
        kind_name(one) != kind_name(other),
{
    lemma_kind_outline(one);
    lemma_kind_outline(other);
}

spec fn role_outline(role: StaticReferenceRole) -> (nat, char, char) {
    match role {
        StaticReferenceRole::Access => (8, 'a', 's'),
        StaticReferenceRole::Call => (5, 'c', 's'),
        StaticReferenceRole::Decorate => (9, 'd', 's'),
        StaticReferenceRole::Export => (7, 'e', 's'),
        StaticReferenceRole::Import => (7, 'i', 's'),
        StaticReferenceRole::Instantiate => (12, 'i', 's'),
        StaticReferenceRole::Reference => (10, 'r', 's'),
        StaticReferenceRole::Type => (8, 't', 'f'),
    }
}

proof fn lemma_role_outline(role: StaticReferenceRole)
    ensures
        outline(reference_kind_name(role)) == role_outline(role),
{
    reveal_strlit("accesses");
    reveal_strlit("calls");
    reveal_strlit("decorates");
    reveal_strlit("exports");
    reveal_strlit("imports");
    reveal_strlit("instantiates");
    reveal_strlit("references");
    reveal_strlit("type_ref");
}

/// Roles of references have distinct names.
pub proof fn law_roles_have_distinct_names(one: StaticReferenceRole, other: StaticReferenceRole)
    requires
        one != other,
    ensures
        reference_kind_name(one) != reference_kind_name(other),
{
    lemma_role_outline(one);
    lemma_role_outline(other);
}

/// Whether other files see something else of a declaration: its kind, identity, name, signature,
/// whether it is exported, or its body, where that is part of its interface.
pub open spec fn is_seen_differently(
    files: Map<FileId, SourceFileModel>,
    token: TokenStaticDataModel,
    other_files: Map<FileId, SourceFileModel>,
    other: TokenStaticDataModel,
) -> bool {
    ||| token.kind != other.kind
    ||| token.stable_id != other.stable_id
    ||| token.qualified_name != other.qualified_name
    ||| token.signature != other.signature
    ||| token.exported != other.exported
    ||| semantic_body(files, token) != semantic_body(other_files, other)
}

proof fn lemma_definition_texts(
    files: Map<FileId, SourceFileModel>,
    token: TokenStaticDataModel,
    other_files: Map<FileId, SourceFileModel>,
    other: TokenStaticDataModel,
)
    requires
        is_seen_differently(files, token, other_files, other),
    ensures
        canonical(definition_entry(files, token)) != canonical(definition_entry(other_files, other)),
{
    if canonical(definition_entry(files, token)) == canonical(
        definition_entry(other_files, other),
    ) {
        let one = definition_entry(files, token)->Object_0;
        let two = definition_entry(other_files, other)->Object_0;
        reveal_strlit("kind");
        reveal_strlit("id");
        reveal_strlit("qualifiedName");
        reveal_strlit("signature");
        reveal_strlit("exported");
        reveal_strlit("semanticBody");
        assert(one[0].0 == "kind"@);
        assert(one[1].0 == "id"@);
        assert(one[2].0 == "qualifiedName"@);
        assert(one[3].0 == "signature"@);
        assert(one[4].0 == "exported"@);
        assert(one[5].0 == "semanticBody"@);
        assert forall|i: int, j: int| 0 <= i < j < one.len() implies (#[trigger] one[i]).0 != (
        #[trigger] one[j]).0 by {
            assert(i == 0 || i == 1 || i == 2 || i == 3 || i == 4);
            assert(j == 1 || j == 2 || j == 3 || j == 4 || j == 5);
        }
        lemma_fields_unambiguous(one, two);
        assert(canonical(one[0].1) == canonical(two[0].1));
        <String>::lemma_distinct(kind_name(token.kind), kind_name(other.kind));
        if token.kind != other.kind {
            law_kinds_have_distinct_names(token.kind, other.kind);
        }
        assert(canonical(one[1].1) == canonical(two[1].1));
        <String>::lemma_distinct(token.stable_id, other.stable_id);
        assert(canonical(one[2].1) == canonical(two[2].1));
        <Option<String>>::lemma_distinct(token.qualified_name, other.qualified_name);
        assert(canonical(one[3].1) == canonical(two[3].1));
        <Option<String>>::lemma_distinct(token.signature, other.signature);
        assert(canonical(one[4].1) == canonical(two[4].1));
        <bool>::lemma_distinct(token.exported, other.exported);
        assert(canonical(one[5].1) == canonical(two[5].1));
        <Option<String>>::lemma_distinct(
            semantic_body(files, token),
            semantic_body(other_files, other),
        );
    }
}

/// Whether other files see something else of an export: who exports it, under which name and
/// identity, or whether there is one at all.
pub open spec fn is_exported_differently(
    one: Option<StaticExportDataModel>,
    other: Option<StaticExportDataModel>,
) -> bool {
    ||| one is Some != other is Some
    ||| one is Some && other is Some && (one->0.exporter != other->0.exporter || one->0.alias_id
        != other->0.alias_id || one->0.alias != other->0.alias || one->0.qualified_name
        != other->0.qualified_name)
}

proof fn lemma_export_texts(
    one: Option<StaticExportDataModel>,
    other: Option<StaticExportDataModel>,
)
    requires
        is_exported_differently(one, other),
    ensures
        canonical(export_entry(one)) != canonical(export_entry(other)),
{
    let left = export_entry(one);
    let right = export_entry(other);
    if canonical(left) == canonical(right) {
        if one is Some && other is Some {
            let first = left->Object_0;
            let second = right->Object_0;
            reveal_strlit("exporter");
            reveal_strlit("aliasId");
            reveal_strlit("alias");
            reveal_strlit("qualifiedName");
            assert(first[0].0 == "exporter"@);
            assert(first[1].0 == "aliasId"@);
            assert(first[2].0 == "alias"@);
            assert(first[3].0 == "qualifiedName"@);
            assert forall|i: int, j: int| 0 <= i < j < first.len() implies (
            #[trigger] first[i]).0 != (#[trigger] first[j]).0 by {
                assert(i == 0 || i == 1 || i == 2);
                assert(j == 1 || j == 2 || j == 3);
            }
            lemma_fields_unambiguous(first, second);
            assert(canonical(first[0].1) == canonical(second[0].1));
            <String>::lemma_distinct(one->0.exporter, other->0.exporter);
            assert(canonical(first[1].1) == canonical(second[1].1));
            <String>::lemma_distinct(one->0.alias_id, other->0.alias_id);
            assert(canonical(first[2].1) == canonical(second[2].1));
            <String>::lemma_distinct(one->0.alias, other->0.alias);
            assert(canonical(first[3].1) == canonical(second[3].1));
            <String>::lemma_distinct(one->0.qualified_name, other->0.qualified_name);
        } else {
            lemma_null_differs(if one is Some {
                left
            } else {
                right
            });
        }
    }
}

/// No object is written as nothing is.
proof fn lemma_null_differs(value: JsonModel)
    requires
        value is Object,
    ensures
        canonical(value) != canonical(JsonModel::Null),
{
    reveal_strlit("null");
    reveal_strlit("{");
    assert(canonical(value)[0] == '{');
    assert(canonical(JsonModel::Null)[0] == 'n');
}

/// Whether a reference is spelled differently in an interface: its role, what it refers to, its
/// spelling, or what it exports.
pub open spec fn is_spelled_differently(
    token: TokenStaticDataModel,
    reference: ReferenceDataModel,
    other: TokenStaticDataModel,
    other_reference: ReferenceDataModel,
) -> bool {
    ||| reference.role != other_reference.role
    ||| token.stable_id != other.stable_id
    ||| reference.interface_spelling != other_reference.interface_spelling
    ||| is_exported_differently(reference.export, other_reference.export)
}

proof fn lemma_reference_texts(
    token: TokenStaticDataModel,
    reference: ReferenceDataModel,
    other: TokenStaticDataModel,
    other_reference: ReferenceDataModel,
)
    requires
        is_spelled_differently(token, reference, other, other_reference),
    ensures
        canonical(reference_entry(token, reference)) != canonical(
            reference_entry(other, other_reference),
        ),
{
    if canonical(reference_entry(token, reference)) == canonical(
        reference_entry(other, other_reference),
    ) {
        let one = reference_entry(token, reference)->Object_0;
        let two = reference_entry(other, other_reference)->Object_0;
        reveal_strlit("role");
        reveal_strlit("target");
        reveal_strlit("spelling");
        reveal_strlit("export");
        assert("target"@[0] != "export"@[0]);
        assert(one[0].0 == "role"@);
        assert(one[1].0 == "target"@);
        assert(one[2].0 == "spelling"@);
        assert(one[3].0 == "export"@);
        assert forall|i: int, j: int| 0 <= i < j < one.len() implies (#[trigger] one[i]).0 != (
        #[trigger] one[j]).0 by {
            assert(i == 0 || i == 1 || i == 2);
            assert(j == 1 || j == 2 || j == 3);
        }
        lemma_fields_unambiguous(one, two);
        assert(canonical(one[0].1) == canonical(two[0].1));
        <String>::lemma_distinct(
            reference_kind_name(reference.role),
            reference_kind_name(other_reference.role),
        );
        assert(canonical(one[1].1) == canonical(two[1].1));
        <String>::lemma_distinct(token.stable_id, other.stable_id);
        assert(canonical(one[2].1) == canonical(two[2].1));
        <Option<String>>::lemma_distinct(
            reference.interface_spelling,
            other_reference.interface_spelling,
        );
        if reference.role != other_reference.role {
            law_roles_have_distinct_names(reference.role, other_reference.role);
        }
        assert(canonical(one[3].1) == canonical(two[3].1));
        if is_exported_differently(reference.export, other_reference.export) {
            lemma_export_texts(reference.export, other_reference.export);
        }
    }
}

/// A source file to which one index contributes something that the other does not has another
/// fingerprint, unless there is a collision.
proof fn lemma_other_contributions(
    files: Map<FileId, SourceFileModel>,
    index: StaticIndexModel,
    other_files: Map<FileId, SourceFileModel>,
    other: StaticIndexModel,
    source: Seq<char>,
    text: Seq<char>,
)
    requires
        is_source(files, index.files, source),
        is_source(other_files, other.files, source),
        contributions(files, index).count((source, text)) != contributions(
            other_files,
            other,
        ).count((source, text)),
        !collide_at(files, index, other_files, other, source),
    ensures
        interface_fingerprints(files, index)[source] != interface_fingerprints(
            other_files,
            other,
        )[source],
{
    law_entries_are_the_contributions(files, index);
    law_entries_are_the_contributions(other_files, other);
    let one = entries_of(files, index)[source];
    let two = entries_of(other_files, other)[source];
    assert(entries_of(files, index).contains_key(source));
    assert(entries_of(other_files, other).contains_key(source));
    assert(interface_fingerprints(files, index)[source] == fingerprint_of(one));
    assert(interface_fingerprints(other_files, other)[source] == fingerprint_of(two));
    assert(one.to_multiset().count(text) != two.to_multiset().count(text));
    if fingerprint_of(one) == fingerprint_of(two) {
        law_fingerprint_identifies(one, two);
    }
}

/// Whether the different interfaces that a source file has by two indexes have one digest.
pub open spec fn collide_at(
    files: Map<FileId, SourceFileModel>,
    index: StaticIndexModel,
    other_files: Map<FileId, SourceFileModel>,
    other: StaticIndexModel,
    source: Seq<char>,
) -> bool {
    collide(
        <Vec<String>>::encoding(stable_sorted::<String>(entries_of(files, index)[source])),
        <Vec<String>>::encoding(stable_sorted::<String>(entries_of(other_files, other)[source])),
    )
}

/// Whether the relations of two indexes contribute the same.
pub open spec fn relate_alike(
    files: Map<FileId, SourceFileModel>,
    relations: Seq<StaticRelationModel>,
    other_files: Map<FileId, SourceFileModel>,
    others: Seq<StaticRelationModel>,
) -> bool {
    &&& relations == others
    &&& forall|i: int|
        0 <= i < relations.len() ==> source_of(files, (#[trigger] relations[i]).file_id)
            == source_of(other_files, relations[i].file_id)
}

/// Whether the references to two declarations look the same, but for one of them.
pub open spec fn refer_alike(
    files: Map<FileId, SourceFileModel>,
    token: TokenStaticDataModel,
    other_files: Map<FileId, SourceFileModel>,
    other: TokenStaticDataModel,
    but: Option<int>,
) -> bool {
    &&& token.references.len() == other.references.len()
    &&& forall|i: int|
        0 <= i < token.references.len() && but != Some(i) ==> same_reference(
            files,
            #[trigger] token.references[i],
            other_files,
            other.references[i],
        )
}

/// Whether all declarations but one look the same to other files by two indexes.
pub open spec fn declare_alike(
    files: Map<FileId, SourceFileModel>,
    tokens: Seq<TokenStaticDataModel>,
    other_files: Map<FileId, SourceFileModel>,
    others: Seq<TokenStaticDataModel>,
    but: int,
) -> bool {
    &&& tokens.len() == others.len()
    &&& forall|i: int|
        0 <= i < tokens.len() && i != but ==> same_interface(
            files,
            #[trigger] tokens[i],
            other_files,
            others[i],
        )
}

proof fn lemma_reference_alike(
    files: Map<FileId, SourceFileModel>,
    token: TokenStaticDataModel,
    reference: ReferenceDataModel,
    other_files: Map<FileId, SourceFileModel>,
    other: TokenStaticDataModel,
    other_reference: ReferenceDataModel,
)
    requires
        token.stable_id == other.stable_id,
        same_reference(files, reference, other_files, other_reference),
    ensures
        reference_part(files, token, reference) == reference_part(
            other_files,
            other,
            other_reference,
        ),
{
}

proof fn lemma_references_alike(
    files: Map<FileId, SourceFileModel>,
    token: TokenStaticDataModel,
    other_files: Map<FileId, SourceFileModel>,
    other: TokenStaticDataModel,
)
    requires
        token.stable_id == other.stable_id,
        refer_alike(files, token, other_files, other, None),
    ensures
        references_part(files, token, token.references) == references_part(
            other_files,
            other,
            other.references,
        ),
{
    let part = |reference: ReferenceDataModel| reference_part(files, token, reference);
    let other_part = |reference: ReferenceDataModel| reference_part(other_files, other, reference);
    assert forall|i: int| 0 <= i < token.references.len() implies part(
        #[trigger] token.references[i],
    ) == other_part(other.references[i]) by {
        lemma_reference_alike(
            files,
            token,
            token.references[i],
            other_files,
            other,
            other.references[i],
        );
    }
    lemma_total_alike(token.references, part, other.references, other_part);
}

proof fn lemma_token_alike(
    files: Map<FileId, SourceFileModel>,
    token: TokenStaticDataModel,
    other_files: Map<FileId, SourceFileModel>,
    other: TokenStaticDataModel,
)
    requires
        same_interface(files, token, other_files, other),
    ensures
        token_part(files, token) == token_part(other_files, other),
{
    lemma_references_alike(files, token, other_files, other);
    if is_declared(token) {
        assert(definition_entry(files, token) == definition_entry(other_files, other));
    }
}

/// Where all declarations but one look the same, the contributions differ by those of that one.
proof fn lemma_contributions_changed(
    files: Map<FileId, SourceFileModel>,
    index: StaticIndexModel,
    other_files: Map<FileId, SourceFileModel>,
    other: StaticIndexModel,
    at: int,
)
    requires
        0 <= at < index.tokens.len(),
        declare_alike(files, index.tokens, other_files, other.tokens, at),
        relate_alike(files, index.relations, other_files, other.relations),
    ensures
        contributions(files, index).add(token_part(other_files, other.tokens[at]))
            == contributions(other_files, other).add(token_part(files, index.tokens[at])),
{
    let part = |token: TokenStaticDataModel| token_part(files, token);
    let other_part = |token: TokenStaticDataModel| token_part(other_files, token);
    assert forall|i: int| 0 <= i < index.tokens.len() && i != at implies part(
        #[trigger] index.tokens[i],
    ) == other_part(other.tokens[i]) by {
        lemma_token_alike(files, index.tokens[i], other_files, other.tokens[i]);
    }
    lemma_total_changed(index.tokens, part, other.tokens, other_part, at);
    let relate = |relation: StaticRelationModel| relation_part(files, relation);
    let other_relate = |relation: StaticRelationModel| relation_part(other_files, relation);
    assert forall|i: int| 0 <= i < index.relations.len() implies relate(
        #[trigger] index.relations[i],
    ) == other_relate(other.relations[i]) by {
        assert(source_of(files, index.relations[i].file_id) == source_of(
            other_files,
            index.relations[i].file_id,
        ));
    }
    lemma_total_alike(index.relations, relate, other.relations, other_relate);
    let one = total(index.tokens, part).add(other_part(other.tokens[at]));
    let two = total(other.tokens, other_part).add(part(index.tokens[at]));
    let all = contributions(files, index).add(token_part(other_files, other.tokens[at]));
    let other_all = contributions(other_files, other).add(token_part(files, index.tokens[at]));
    assert forall|x: Contribution| #[trigger] all.count(x) == other_all.count(x) by {
        assert(one.count(x) == two.count(x));
    }
    assert(all =~= other_all);
}

/// A source file has another fingerprint once other files see something else of a declaration in it,
/// such as the body of a constant function, and nothing else of the rest, unless there is a
/// collision.
pub proof fn law_declarations_show(
    files: Map<FileId, SourceFileModel>,
    index: StaticIndexModel,
    other_files: Map<FileId, SourceFileModel>,
    other: StaticIndexModel,
    at: int,
    source: Seq<char>,
)
    requires
        is_source(files, index.files, source),
        is_source(other_files, other.files, source),
        0 <= at < index.tokens.len(),
        declare_alike(files, index.tokens, other_files, other.tokens, at),
        relate_alike(files, index.relations, other_files, other.relations),
        index.tokens[at].stable_id == other.tokens[at].stable_id,
        refer_alike(files, index.tokens[at], other_files, other.tokens[at], None),
        is_declared(index.tokens[at]),
        is_declared(other.tokens[at]),
        source_of(files, index.tokens[at].definition->0.file_id) == source,
        source_of(other_files, other.tokens[at].definition->0.file_id) == source,
        is_seen_differently(files, index.tokens[at], other_files, other.tokens[at]),
        !collide_at(files, index, other_files, other, source),
    ensures
        interface_fingerprints(files, index)[source] != interface_fingerprints(
            other_files,
            other,
        )[source],
{
    let token = index.tokens[at];
    let changed = other.tokens[at];
    let text = canonical(definition_entry(files, token));
    lemma_definition_texts(files, token, other_files, changed);
    lemma_references_alike(files, token, other_files, changed);
    lemma_contributions_changed(files, index, other_files, other, at);
    let x = (source, text);
    let one = contributions(files, index).add(token_part(other_files, changed));
    let two = contributions(other_files, other).add(token_part(files, token));
    assert(one.count(x) == two.count(x));
    assert(definition_part(files, token).count(x) == 1);
    assert(definition_part(other_files, changed).count(x) == 0);
    lemma_other_contributions(files, index, other_files, other, source, text);
}

/// A source file has another fingerprint once an import or an export in it is spelled differently or
/// exports something else and the rest looks the same, unless there is a collision.
pub proof fn law_spellings_show(
    files: Map<FileId, SourceFileModel>,
    index: StaticIndexModel,
    other_files: Map<FileId, SourceFileModel>,
    other: StaticIndexModel,
    at: int,
    number: int,
    source: Seq<char>,
)
    requires
        is_source(files, index.files, source),
        is_source(other_files, other.files, source),
        0 <= at < index.tokens.len(),
        declare_alike(files, index.tokens, other_files, other.tokens, at),
        relate_alike(files, index.relations, other_files, other.relations),
        0 <= number < index.tokens[at].references.len(),
        same_interface(
            files,
            (TokenStaticDataModel { references: Seq::empty(), ..index.tokens[at] }),
            other_files,
            (TokenStaticDataModel { references: Seq::empty(), ..other.tokens[at] }),
        ),
        refer_alike(files, index.tokens[at], other_files, other.tokens[at], Some(number)),
        is_interface_reference(index.tokens[at].references[number]),
        is_interface_reference(other.tokens[at].references[number]),
        source_of(files, index.tokens[at].references[number].range.file_id) == source,
        source_of(other_files, other.tokens[at].references[number].range.file_id) == source,
        is_spelled_differently(
            index.tokens[at],
            index.tokens[at].references[number],
            other.tokens[at],
            other.tokens[at].references[number],
        ),
        !collide_at(files, index, other_files, other, source),
    ensures
        interface_fingerprints(files, index)[source] != interface_fingerprints(
            other_files,
            other,
        )[source],
{
    let token = index.tokens[at];
    let changed = other.tokens[at];
    let bare = TokenStaticDataModel { references: Seq::empty(), ..token };
    let other_bare = TokenStaticDataModel { references: Seq::empty(), ..changed };
    let text = canonical(reference_entry(token, token.references[number]));
    lemma_reference_texts(
        token,
        token.references[number],
        changed,
        changed.references[number],
    );
    let part = |reference: ReferenceDataModel| reference_part(files, token, reference);
    let other_part = |reference: ReferenceDataModel| reference_part(other_files, changed, reference);
    assert forall|i: int| 0 <= i < token.references.len() && i != number implies part(
        #[trigger] token.references[i],
    ) == other_part(changed.references[i]) by {
        lemma_reference_alike(
            files,
            token,
            token.references[i],
            other_files,
            changed,
            changed.references[i],
        );
    }
    lemma_total_changed(token.references, part, changed.references, other_part, number);
    assert(definition_part(files, token) == definition_part(other_files, changed)) by {
        assert(semantic_body(files, bare) == semantic_body(files, token));
        assert(semantic_body(other_files, other_bare) == semantic_body(other_files, changed));
        if is_declared(token) {
            assert(definition_entry(files, token) == definition_entry(other_files, changed));
        }
    }
    lemma_contributions_changed(files, index, other_files, other, at);
    let x = (source, text);
    let one = contributions(files, index).add(token_part(other_files, changed));
    let two = contributions(other_files, other).add(token_part(files, token));
    assert(one.count(x) == two.count(x));
    let three = references_part(files, token, token.references).add(
        other_part(changed.references[number]),
    );
    let four = references_part(other_files, changed, changed.references).add(
        part(token.references[number]),
    );
    assert(three.count(x) == four.count(x));
    assert(part(token.references[number]).count(x) == 1);
    assert(other_part(changed.references[number]).count(x) == 0);
    lemma_other_contributions(files, index, other_files, other, source, text);
}

/// The text of the body of a declaration, where both are known.
pub open spec fn written_body(
    files: Map<FileId, SourceFileModel>,
    token: TokenStaticDataModel,
) -> Option<Seq<char>> {
    if token.definition_body is Some && files.contains_key(token.definition_body->0.file_id)
        && files[token.definition_body->0.file_id].text is Some {
        byte_slice(
            files[token.definition_body->0.file_id].text->0,
            token.definition_body->0.range.start as int,
            token.definition_body->0.range.end as int,
        )
    } else {
        None
    }
}

/// Whether two references say the same to other files. One that declares, or that neither imports nor
/// exports, says nothing to them.
pub open spec fn reads_alike(
    files: Map<FileId, SourceFileModel>,
    reference: ReferenceDataModel,
    other_files: Map<FileId, SourceFileModel>,
    other: ReferenceDataModel,
) -> bool {
    let one = !reference.is_definition && (reference.role == StaticReferenceRole::Import
        || reference.role == StaticReferenceRole::Export);
    let two = !other.is_definition && (other.role == StaticReferenceRole::Import || other.role
        == StaticReferenceRole::Export);
    &&& one == two
    &&& one ==> {
        &&& source_of(files, reference.range.file_id) == source_of(
            other_files,
            other.range.file_id,
        )
        &&& reference.role == other.role
        &&& reference.interface_spelling == other.interface_spelling
        &&& reference.export is Some == other.export is Some
        &&& reference.export is Some ==> {
            &&& reference.export->0.exporter == other.export->0.exporter
            &&& reference.export->0.alias_id == other.export->0.alias_id
            &&& reference.export->0.alias == other.export->0.alias
            &&& reference.export->0.qualified_name == other.export->0.qualified_name
        }
    }
}

/// Whether two declarations are the same to other files but for their bodies, wherever they stand.
pub open spec fn looks_alike(
    files: Map<FileId, SourceFileModel>,
    token: TokenStaticDataModel,
    other_files: Map<FileId, SourceFileModel>,
    other: TokenStaticDataModel,
) -> bool {
    &&& token.stable_id == other.stable_id
    &&& token.local == other.local
    &&& token.external == other.external
    &&& token.kind == other.kind
    &&& token.const_function == other.const_function
    &&& token.qualified_name == other.qualified_name
    &&& token.signature == other.signature
    &&& token.exported == other.exported
    &&& token.definition is Some == other.definition is Some
    &&& token.definition is Some ==> source_of(files, token.definition->0.file_id) == source_of(
        other_files,
        other.definition->0.file_id,
    )
    &&& token.references.len() == other.references.len()
    &&& forall|i: int|
        0 <= i < token.references.len() ==> reads_alike(
            files,
            #[trigger] token.references[i],
            other_files,
            other.references[i],
        )
}

proof fn lemma_reads_alike(
    files: Map<FileId, SourceFileModel>,
    reference: ReferenceDataModel,
    other_files: Map<FileId, SourceFileModel>,
    other: ReferenceDataModel,
)
    requires
        reads_alike(files, reference, other_files, other),
    ensures
        same_reference(files, reference, other_files, other),
{
}

proof fn lemma_looks_alike(
    files: Map<FileId, SourceFileModel>,
    token: TokenStaticDataModel,
    other_files: Map<FileId, SourceFileModel>,
    other: TokenStaticDataModel,
)
    requires
        looks_alike(files, token, other_files, other),
        token.const_function || token.kind == SymbolInformationKind::Constant || token.kind
            == SymbolInformationKind::StaticVariable || token.kind
            == SymbolInformationKind::EnumMember || token.kind == SymbolInformationKind::Macro
            ==> written_body(files, token) == written_body(other_files, other),
    ensures
        same_interface(files, token, other_files, other),
{
    assert forall|i: int| 0 <= i < token.references.len() implies same_reference(
        files,
        #[trigger] token.references[i],
        other_files,
        other.references[i],
    ) by {
        lemma_reads_alike(files, token.references[i], other_files, other.references[i]);
    }
}

/// The body of a constant, of a static, of a variant of an enum, of a macro and of a constant function
/// shows: with another text in it, and nothing else that other files see, the source file has another
/// fingerprint, unless there is a collision.
pub proof fn law_bodies_show(
    files: Map<FileId, SourceFileModel>,
    index: StaticIndexModel,
    other_files: Map<FileId, SourceFileModel>,
    other: StaticIndexModel,
    at: int,
)
    requires
        0 <= at < index.tokens.len(),
        index.tokens.len() == other.tokens.len(),
        forall|i: int|
            0 <= i < index.tokens.len() ==> looks_alike(
                files,
                #[trigger] index.tokens[i],
                other_files,
                other.tokens[i],
            ),
        forall|i: int|
            0 <= i < index.tokens.len() && i != at ==> written_body(
                files,
                #[trigger] index.tokens[i],
            ) == written_body(other_files, other.tokens[i]),
        relate_alike(files, index.relations, other_files, other.relations),
        index.tokens[at].kind == SymbolInformationKind::Constant || index.tokens[at].kind
            == SymbolInformationKind::StaticVariable || index.tokens[at].kind
            == SymbolInformationKind::EnumMember || index.tokens[at].kind
            == SymbolInformationKind::Macro || index.tokens[at].const_function,
        !index.tokens[at].local,
        !index.tokens[at].external,
        index.tokens[at].definition is Some,
        is_source(
            files,
            index.files,
            source_of(files, index.tokens[at].definition->0.file_id),
        ),
        is_source(
            other_files,
            other.files,
            source_of(files, index.tokens[at].definition->0.file_id),
        ),
        written_body(files, index.tokens[at]) != written_body(other_files, other.tokens[at]),
        !collide_at(
            files,
            index,
            other_files,
            other,
            source_of(files, index.tokens[at].definition->0.file_id),
        ),
    ensures
        ({
            let source = source_of(files, index.tokens[at].definition->0.file_id);
            interface_fingerprints(files, index)[source] != interface_fingerprints(
                other_files,
                other,
            )[source]
        }),
{
    let token = index.tokens[at];
    let changed = other.tokens[at];
    assert(looks_alike(files, token, other_files, changed));
    assert forall|i: int| 0 <= i < index.tokens.len() && i != at implies same_interface(
        files,
        #[trigger] index.tokens[i],
        other_files,
        other.tokens[i],
    ) by {
        lemma_looks_alike(files, index.tokens[i], other_files, other.tokens[i]);
    }
    assert forall|i: int| 0 <= i < token.references.len() implies same_reference(
        files,
        #[trigger] token.references[i],
        other_files,
        changed.references[i],
    ) by {
        lemma_reads_alike(files, token.references[i], other_files, changed.references[i]);
    }
    assert(semantic_body(files, token) == written_body(files, token));
    assert(semantic_body(other_files, changed) == written_body(other_files, changed));
    law_declarations_show(
        files,
        index,
        other_files,
        other,
        at,
        source_of(files, token.definition->0.file_id),
    );
}

/// Other bodies do not show: the fingerprints stay the same whatever stands in the body of anything
/// that is neither a constant, a static, a variant of an enum, a macro nor a constant function.
pub proof fn law_other_bodies_do_not_show(
    files: Map<FileId, SourceFileModel>,
    index: StaticIndexModel,
    other_files: Map<FileId, SourceFileModel>,
    other: StaticIndexModel,
)
    requires
        forall|source: Seq<char>| #[trigger]
            is_source(files, index.files, source) <==> is_source(other_files, other.files, source),
        index.tokens.len() == other.tokens.len(),
        forall|i: int|
            0 <= i < index.tokens.len() ==> looks_alike(
                files,
                #[trigger] index.tokens[i],
                other_files,
                other.tokens[i],
            ),
        forall|i: int|
            0 <= i < index.tokens.len() && ((#[trigger] index.tokens[i]).const_function
                || index.tokens[i].kind == SymbolInformationKind::Constant || index.tokens[i].kind
                == SymbolInformationKind::StaticVariable || index.tokens[i].kind
                == SymbolInformationKind::EnumMember || index.tokens[i].kind
                == SymbolInformationKind::Macro) ==> written_body(files, index.tokens[i])
                == written_body(other_files, other.tokens[i]),
        relate_alike(files, index.relations, other_files, other.relations),
    ensures
        interface_fingerprints(files, index) == interface_fingerprints(other_files, other),
{
    let part = |token: TokenStaticDataModel| token_part(files, token);
    let other_part = |token: TokenStaticDataModel| token_part(other_files, token);
    assert forall|i: int| 0 <= i < index.tokens.len() implies part(#[trigger] index.tokens[i])
        == other_part(other.tokens[i]) by {
        lemma_looks_alike(files, index.tokens[i], other_files, other.tokens[i]);
        lemma_token_alike(files, index.tokens[i], other_files, other.tokens[i]);
    }
    lemma_total_alike(index.tokens, part, other.tokens, other_part);
    let relate = |relation: StaticRelationModel| relation_part(files, relation);
    let other_relate = |relation: StaticRelationModel| relation_part(other_files, relation);
    assert forall|i: int| 0 <= i < index.relations.len() implies relate(
        #[trigger] index.relations[i],
    ) == other_relate(other.relations[i]) by {
        assert(source_of(files, index.relations[i].file_id) == source_of(
            other_files,
            index.relations[i].file_id,
        ));
    }
    lemma_total_alike(index.relations, relate, other.relations, other_relate);
    lemma_same_contributions(files, index, other_files, other);
}

/// The index with one more reference to a declaration.
pub open spec fn with_reference(
    index: StaticIndexModel,
    at: int,
    reference: ReferenceDataModel,
) -> StaticIndexModel {
    let token = index.tokens[at];
    StaticIndexModel {
        tokens: index.tokens.update(
            at,
            TokenStaticDataModel { references: token.references.push(reference), ..token },
        ),
        ..index
    }
}

/// One more import or export shows in the source file that it stands in, unless there is a collision.
/// One more declaration or reference of any other role shows nowhere.
pub proof fn law_imports_and_exports_show(
    files: Map<FileId, SourceFileModel>,
    index: StaticIndexModel,
    at: int,
    reference: ReferenceDataModel,
)
    requires
        0 <= at < index.tokens.len(),
    ensures
        ({
            let more = with_reference(index, at, reference);
            let source = source_of(files, reference.range.file_id);
            if !reference.is_definition && (reference.role == StaticReferenceRole::Import
                || reference.role == StaticReferenceRole::Export) {
                is_source(files, index.files, source) && !collide_at(
                    files,
                    index,
                    files,
                    more,
                    source,
                ) ==> interface_fingerprints(files, index)[source] != interface_fingerprints(
                    files,
                    more,
                )[source]
            } else {
                interface_fingerprints(files, index) == interface_fingerprints(files, more)
            }
        }),
{
    let more = with_reference(index, at, reference);
    let token = index.tokens[at];
    let changed = more.tokens[at];
    let source = source_of(files, reference.range.file_id);
    let part = |token: TokenStaticDataModel| token_part(files, token);
    lemma_total_changed(index.tokens, part, more.tokens, part, at);
    let refer = |reference: ReferenceDataModel| reference_part(files, token, reference);
    let other_refer = |reference: ReferenceDataModel| reference_part(files, changed, reference);
    assert(changed.references.drop_last() =~= token.references);
    lemma_total_alike(token.references, refer, token.references, other_refer);
    assert(references_part(files, changed, changed.references) == references_part(
        files,
        token,
        token.references,
    ).add(other_refer(reference)));
    assert(definition_entry(files, token) == definition_entry(files, changed));
    assert(definition_part(files, token) == definition_part(files, changed));
    let one = contributions(files, index);
    let two = contributions(files, more);
    let added = reference_part(files, changed, reference);
    assert forall|x: Contribution| #[trigger] two.count(x) == one.count(x) + added.count(x) by {
        let left = total(index.tokens, part).add(part(changed));
        let right = total(more.tokens, part).add(part(token));
        assert(left.count(x) == right.count(x));
        assert(part(changed).count(x) == part(token).count(x) + added.count(x));
    }
    if !reference.is_definition && (reference.role == StaticReferenceRole::Import || reference.role
        == StaticReferenceRole::Export) {
        let text = canonical(reference_entry(changed, reference));
        assert(added.count((source, text)) == 1);
        if is_source(files, index.files, source) && !collide_at(files, index, files, more, source) {
            lemma_other_contributions(files, index, files, more, source, text);
        }
    } else {
        assert(one =~= two);
        lemma_same_contributions(files, index, files, more);
    }
}

/// One more declaration that is neither local nor external shows in the source file that declares it,
/// unless there is a collision. A local or external one, and one that is declared nowhere, shows
/// nowhere.
pub proof fn law_new_declarations_show(
    files: Map<FileId, SourceFileModel>,
    index: StaticIndexModel,
    token: TokenStaticDataModel,
)
    requires
        token.references.len() == 0,
    ensures
        ({
            let more = StaticIndexModel { tokens: index.tokens.push(token), ..index };
            if !token.local && !token.external && token.definition is Some {
                let source = source_of(files, token.definition->0.file_id);
                is_source(files, index.files, source) && !collide_at(
                    files,
                    index,
                    files,
                    more,
                    source,
                ) ==> interface_fingerprints(files, index)[source] != interface_fingerprints(
                    files,
                    more,
                )[source]
            } else {
                interface_fingerprints(files, index) == interface_fingerprints(files, more)
            }
        }),
{
    let more = StaticIndexModel { tokens: index.tokens.push(token), ..index };
    let one = contributions(files, index);
    let two = contributions(files, more);
    let added = definition_part(files, token);
    assert(more.tokens.drop_last() =~= index.tokens);
    assert(references_part(files, token, token.references) =~= Multiset::empty());
    assert forall|x: Contribution| #[trigger] two.count(x) == one.count(x) + added.count(x) by {}
    if !token.local && !token.external && token.definition is Some {
        let source = source_of(files, token.definition->0.file_id);
        let text = canonical(definition_entry(files, token));
        assert(added.count((source, text)) == 1);
        if is_source(files, index.files, source) && !collide_at(files, index, files, more, source) {
            lemma_other_contributions(files, index, files, more, source, text);
        }
    } else {
        assert(one =~= two);
        lemma_same_contributions(files, index, files, more);
    }
}

/// One more relation shows in the source file that it stands in, unless there is a collision.
pub proof fn law_new_relations_show(
    files: Map<FileId, SourceFileModel>,
    index: StaticIndexModel,
    relation: StaticRelationModel,
)
    ensures
        ({
            let more = StaticIndexModel { relations: index.relations.push(relation), ..index };
            let source = source_of(files, relation.file_id);
            is_source(files, index.files, source) && !collide_at(files, index, files, more, source)
                ==> interface_fingerprints(files, index)[source] != interface_fingerprints(
                files,
                more,
            )[source]
        }),
{
    let more = StaticIndexModel { relations: index.relations.push(relation), ..index };
    let source = source_of(files, relation.file_id);
    let text = canonical(relation_entry(relation));
    let one = contributions(files, index);
    let two = contributions(files, more);
    let added = relation_part(files, relation);
    assert(more.relations.drop_last() =~= index.relations);
    assert(two.count((source, text)) == one.count((source, text)) + added.count((source, text)));
    assert(added.count((source, text)) == 1);
    if is_source(files, index.files, source) && !collide_at(files, index, files, more, source) {
        lemma_other_contributions(files, index, files, more, source, text);
    }
}

/// Whether other files see something else of a relation.
pub open spec fn is_related_differently(
    one: StaticRelationModel,
    other: StaticRelationModel,
) -> bool {
    ||| one.kind != other.kind
    ||| one.from != other.from
    ||| one.to != other.to
    ||| one.to_display_name != other.to_display_name
    ||| one.to_qualified_name != other.to_qualified_name
    ||| one.to_signature != other.to_signature
    ||| one.to_kind != other.to_kind
    ||| one.to_external != other.to_external
    ||| one.to_exported != other.to_exported
}

proof fn lemma_relation_texts(one: StaticRelationModel, other: StaticRelationModel)
    requires
        is_related_differently(one, other),
    ensures
        canonical(relation_entry(one)) != canonical(relation_entry(other)),
{
    if canonical(relation_entry(one)) == canonical(relation_entry(other)) {
        let first = relation_entry(one)->Object_0;
        let second = relation_entry(other)->Object_0;
        lemma_relation_fields(one);
        lemma_fields_unambiguous(first, second);
        assert(canonical(first[0].1) == canonical(second[0].1));
        <String>::lemma_distinct(relation_name(one.kind), relation_name(other.kind));
        reveal_strlit("Extends");
        reveal_strlit("Implements");
        reveal_strlit("Overrides");
        assert(one.kind == other.kind) by {
            assert("Extends"@.len() == 7 && "Implements"@.len() == 10 && "Overrides"@.len() == 9);
        }
        assert(canonical(first[1].1) == canonical(second[1].1));
        <String>::lemma_distinct(one.from, other.from);
        assert(canonical(first[2].1) == canonical(second[2].1));
        <String>::lemma_distinct(one.to, other.to);
        assert(canonical(first[3].1) == canonical(second[3].1));
        <Option<String>>::lemma_distinct(one.to_display_name, other.to_display_name);
        assert(canonical(first[4].1) == canonical(second[4].1));
        <Option<String>>::lemma_distinct(one.to_qualified_name, other.to_qualified_name);
        assert(canonical(first[5].1) == canonical(second[5].1));
        <String>::lemma_distinct(one.to_signature, other.to_signature);
        assert(canonical(first[6].1) == canonical(second[6].1));
        <String>::lemma_distinct(kind_name(one.to_kind), kind_name(other.to_kind));
        if one.to_kind != other.to_kind {
            law_kinds_have_distinct_names(one.to_kind, other.to_kind);
        }
        assert(canonical(first[7].1) == canonical(second[7].1));
        <bool>::lemma_distinct(one.to_external, other.to_external);
        assert(canonical(first[8].1) == canonical(second[8].1));
        <bool>::lemma_distinct(one.to_exported, other.to_exported);
    }
}

proof fn lemma_relation_fields(relation: StaticRelationModel)
    ensures
        ({
            let fields = relation_entry(relation)->Object_0;
            forall|i: int, j: int|
                0 <= i < j < fields.len() ==> (#[trigger] fields[i]).0 != (#[trigger] fields[j]).0
        }),
{
    let fields = relation_entry(relation)->Object_0;
    reveal_strlit("relation");
    reveal_strlit("from");
    reveal_strlit("to");
    reveal_strlit("toDisplayName");
    reveal_strlit("toQualifiedName");
    reveal_strlit("toSignature");
    reveal_strlit("toKind");
    reveal_strlit("toExternal");
    reveal_strlit("toExported");
    assert(fields.len() == 9);
    assert(fields[0].0 == "relation"@ && fields[0].0.len() == 8);
    assert(fields[1].0 == "from"@ && fields[1].0.len() == 4);
    assert(fields[2].0 == "to"@ && fields[2].0.len() == 2);
    assert(fields[3].0 == "toDisplayName"@ && fields[3].0.len() == 13);
    assert(fields[4].0 == "toQualifiedName"@ && fields[4].0.len() == 15);
    assert(fields[5].0 == "toSignature"@ && fields[5].0.len() == 11);
    assert(fields[6].0 == "toKind"@ && fields[6].0.len() == 6);
    assert(fields[7].0 == "toExternal"@ && fields[7].0.len() == 10);
    assert(fields[8].0 == "toExported"@ && fields[8].0.len() == 10);
    assert(fields[7].0[4] == 't' && fields[8].0[4] == 'p');
    assert forall|i: int, j: int| 0 <= i < j < fields.len() implies (#[trigger] fields[i]).0 != (
    #[trigger] fields[j]).0 by {
        assert(i == 0 || i == 1 || i == 2 || i == 3 || i == 4 || i == 5 || i == 6 || i == 7);
        assert(j == 1 || j == 2 || j == 3 || j == 4 || j == 5 || j == 6 || j == 7 || j == 8);
    }
}

/// A source file has another fingerprint once other files see something else of a relation in it and
/// the rest looks the same, unless there is a collision.
pub proof fn law_relations_show(
    files: Map<FileId, SourceFileModel>,
    index: StaticIndexModel,
    at: int,
    relation: StaticRelationModel,
)
    requires
        0 <= at < index.relations.len(),
        relation.file_id == index.relations[at].file_id,
        is_related_differently(index.relations[at], relation),
        is_source(files, index.files, source_of(files, relation.file_id)),
        !collide_at(
            files,
            index,
            files,
            (StaticIndexModel { relations: index.relations.update(at, relation), ..index }),
            source_of(files, relation.file_id),
        ),
    ensures
        interface_fingerprints(files, index)[source_of(files, relation.file_id)]
            != interface_fingerprints(
            files,
            (StaticIndexModel { relations: index.relations.update(at, relation), ..index }),
        )[source_of(files, relation.file_id)],
{
    let other = StaticIndexModel { relations: index.relations.update(at, relation), ..index };
    let source = source_of(files, relation.file_id);
    let before = index.relations[at];
    let text = canonical(relation_entry(before));
    let part = |relation: StaticRelationModel| relation_part(files, relation);
    lemma_relation_texts(before, relation);
    lemma_total_changed(index.relations, part, other.relations, part, at);
    let x = (source, text);
    let one = total(index.relations, part).add(part(relation));
    let two = total(other.relations, part).add(part(before));
    assert(one.count(x) == two.count(x));
    assert(part(before).count(x) == 1);
    assert(part(relation).count(x) == 0);
    lemma_other_contributions(files, index, files, other, source, text);
}

} // verus!
