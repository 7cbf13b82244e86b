//! Which files an index covers.

use vstd::prelude::*;

use crate::files::FileId;
use crate::indexing::{
    Analysis, DefinitionFacts, FileFacts, Progress, Site, TokenFacts, empty_index, facts_from,
    index_of, index_of_files, is_numbered, met, raw_ids, reference_to, uses_of, with_file,
    with_files, with_module, with_reference, with_tokens, with_use, with_uses,
};
use crate::modules::{
    VendoredLibrariesConfig, indexed_files, is_indexed, law_source_files_are_distinct,
    lemma_indexed_files, source_files, visited,
};
use crate::relations::{is_wanted, lemma_sorted_relations, sorted_relations};
use crate::static_index::{
    StaticIndexModel, StaticIndexedFileModel, StaticReferenceRole, StaticRelationModel,
    TokenStaticDataModel,
};

verus! {

/// The first files of a list without those that came before, in order of first occurrence.
pub open spec fn first_occurrences(ids: Seq<FileId>, count: int) -> Seq<FileId>
    decreases count,
{
    if count <= 0 {
        Seq::empty()
    } else if ids.take(count - 1).contains(ids[count - 1]) {
        first_occurrences(ids, count - 1)
    } else {
        first_occurrences(ids, count - 1).push(ids[count - 1])
    }
}

/// The files of a list, each once, in order of first occurrence.
pub open spec fn distinct_files(ids: Seq<FileId>) -> Seq<FileId> {
    first_occurrences(ids, ids.len() as int)
}

/// Whether something is known of a file and it has a crate to show names for.
pub open spec fn is_shown(facts: Seq<FileFacts>, id: FileId) -> bool {
    facts_from(facts, id, 0) matches Some(file) && file.displayed
}

/// The files of an index.
pub open spec fn covered(files: Seq<StaticIndexedFileModel>) -> Seq<FileId> {
    files.map_values(|file: StaticIndexedFileModel| file.file_id)
}

/// The first of the given files that are shown.
pub open spec fn shown_files(facts: Seq<FileFacts>, ids: Seq<FileId>, count: int) -> Seq<FileId>
    decreases count,
{
    if count <= 0 {
        Seq::empty()
    } else if is_shown(facts, ids[count - 1]) {
        shown_files(facts, ids, count - 1).push(ids[count - 1])
    } else {
        shown_files(facts, ids, count - 1)
    }
}

/// An index with the first of the given files, each as often as it is listed.
spec fn with_each(
    index: StaticIndexModel,
    facts: Seq<FileFacts>,
    ids: Seq<FileId>,
    count: int,
) -> StaticIndexModel
    decreases count,
{
    if count <= 0 {
        index
    } else {
        let before = with_each(index, facts, ids, count - 1);
        match facts_from(facts, ids[count - 1], 0) {
            Some(file) => with_file(before, file),
            None => before,
        }
    }
}

proof fn lemma_with_each_prefix(
    index: StaticIndexModel,
    facts: Seq<FileFacts>,
    ids: Seq<FileId>,
    last: FileId,
    count: int,
)
    requires
        0 <= count <= ids.len(),
    ensures
        with_each(index, facts, ids.push(last), count) == with_each(index, facts, ids, count),
    decreases count,
{
    if count > 0 {
        lemma_with_each_prefix(index, facts, ids, last, count - 1);
        assert(ids.push(last)[count - 1] == ids[count - 1]);
    }
}

/// Repeated files are passed over.
proof fn lemma_with_files(
    index: StaticIndexModel,
    facts: Seq<FileFacts>,
    ids: Seq<FileId>,
    count: int,
)
    requires
        0 <= count <= ids.len(),
    ensures
        with_files(index, facts, ids, count) == with_each(
            index,
            facts,
            first_occurrences(ids, count),
            first_occurrences(ids, count).len() as int,
        ),
    decreases count,
{
    if count > 0 {
        lemma_with_files(index, facts, ids, count - 1);
        let kept = first_occurrences(ids, count - 1);
        if !ids.take(count - 1).contains(ids[count - 1]) {
            lemma_with_each_prefix(index, facts, kept, ids[count - 1], kept.len() as int);
        }
    }
}

/// The first occurrences among the first files are exactly those files, and each occurs once.
proof fn lemma_first_occurrences(ids: Seq<FileId>, count: int)
    requires
        0 <= count <= ids.len(),
    ensures
        forall|id: FileId| #[trigger]
            first_occurrences(ids, count).contains(id) <==> ids.take(count).contains(id),
        first_occurrences(ids, count).no_duplicates(),
    decreases count,
{
    if count > 0 {
        lemma_first_occurrences(ids, count - 1);
        let shorter = first_occurrences(ids, count - 1);
        let kept = first_occurrences(ids, count);
        let last = ids[count - 1];
        assert(ids.take(count) =~= ids.take(count - 1).push(last));
        assert forall|id: FileId| #[trigger]
            kept.contains(id) <==> ids.take(count).contains(id) by {
            lemma_push_contains(shorter, last, id);
            lemma_push_contains(ids.take(count - 1), last, id);
        }
        if !ids.take(count - 1).contains(last) {
            assert(!shorter.contains(last));
            assert forall|i: int, j: int|
                0 <= i < kept.len() && 0 <= j < kept.len() && i != j implies kept[i]
                != kept[j] by {
                if i < shorter.len() {
                    assert(shorter[i] == kept[i]);
                }
                if j < shorter.len() {
                    assert(shorter[j] == kept[j]);
                }
            }
        }
    }
}

proof fn lemma_push_contains(ids: Seq<FileId>, last: FileId, id: FileId)
    ensures
        ids.push(last).contains(id) <==> ids.contains(id) || id == last,
{
    let all = ids.push(last);
    if ids.contains(id) {
        let i = choose|i: int| 0 <= i < ids.len() && ids[i] == id;
        assert(all[i] == id);
    }
    if id == last {
        assert(all[ids.len() as int] == id);
    }
}

/// A list without repeats is what it is.
proof fn lemma_nothing_repeated(ids: Seq<FileId>, count: int)
    requires
        0 <= count <= ids.len(),
        ids.no_duplicates(),
    ensures
        first_occurrences(ids, count) == ids.take(count),
    decreases count,
{
    if count > 0 {
        lemma_nothing_repeated(ids, count - 1);
        let before = ids.take(count - 1);
        if before.contains(ids[count - 1]) {
            let i = choose|i: int| 0 <= i < before.len() && before[i] == ids[count - 1];
            assert(ids[i] == ids[count - 1]);
        }
        assert(ids.take(count) =~= before.push(ids[count - 1]));
    } else {
        assert(first_occurrences(ids, count) =~= ids.take(0));
    }
}

proof fn lemma_facts_from(facts: Seq<FileFacts>, id: FileId, from: int)
    ensures
        facts_from(facts, id, from) matches Some(file) ==> file.file_id == id,
    decreases facts.len() - from,
{
    if 0 <= from < facts.len() {
        lemma_facts_from(facts, id, from + 1);
    }
}

proof fn lemma_covered(
    index: StaticIndexModel,
    facts: Seq<FileFacts>,
    ids: Seq<FileId>,
    count: int,
)
    requires
        0 <= count <= ids.len(),
    ensures
        covered(with_each(index, facts, ids, count).files) == covered(index.files) + shown_files(
            facts,
            ids,
            count,
        ),
    decreases count,
{
    if count > 0 {
        lemma_covered(index, facts, ids, count - 1);
        lemma_facts_from(facts, ids[count - 1], 0);
        let before = with_each(index, facts, ids, count - 1);
        let after = with_each(index, facts, ids, count);
        if is_shown(facts, ids[count - 1]) {
            assert(covered(after.files) =~= covered(before.files).push(ids[count - 1]));
            assert((covered(index.files) + shown_files(facts, ids, count - 1)).push(ids[count - 1])
                =~= covered(index.files) + shown_files(facts, ids, count));
        }
    } else {
        assert(covered(index.files) + shown_files(facts, ids, count) =~= covered(index.files));
    }
}

proof fn lemma_all_shown(facts: Seq<FileFacts>, ids: Seq<FileId>, count: int)
    requires
        0 <= count <= ids.len(),
        forall|i: int| 0 <= i < ids.len() ==> is_shown(facts, #[trigger] ids[i]),
    ensures
        shown_files(facts, ids, count) == ids.take(count),
    decreases count,
{
    if count > 0 {
        lemma_all_shown(facts, ids, count - 1);
        assert(ids.take(count) =~= ids.take(count - 1).push(ids[count - 1]));
    } else {
        assert(shown_files(facts, ids, count) =~= ids.take(0));
    }
}

proof fn lemma_shown_files(facts: Seq<FileFacts>, ids: Seq<FileId>, count: int, id: FileId)
    requires
        0 <= count <= ids.len(),
    ensures
        shown_files(facts, ids, count).contains(id) <==> ids.take(count).contains(id) && is_shown(
            facts,
            id,
        ),
    decreases count,
{
    if count > 0 {
        lemma_shown_files(facts, ids, count - 1, id);
        assert(ids.take(count) =~= ids.take(count - 1).push(ids[count - 1]));
        lemma_push_contains(ids.take(count - 1), ids[count - 1], id);
        lemma_push_contains(shown_files(facts, ids, count - 1), ids[count - 1], id);
    }
}

/// The index of some files covers those of them that are shown, each once and in order of first
/// occurrence: all of them, if all are shown.
pub proof fn law_index_covers_the_files(analysis: Analysis, ids: Seq<FileId>)
    ensures
        covered(index_of_files(analysis, ids).files) == shown_files(
            analysis.files@,
            distinct_files(ids),
            distinct_files(ids).len() as int,
        ),
        (forall|i: int| 0 <= i < ids.len() ==> is_shown(analysis.files@, #[trigger] ids[i]))
            ==> covered(index_of_files(analysis, ids).files) == distinct_files(ids),
        distinct_files(ids).no_duplicates(),
        forall|id: FileId| #[trigger] distinct_files(ids).contains(id) <==> ids.contains(id),
{
    let facts = analysis.files@;
    let start = empty_index(true);
    let kept = distinct_files(ids);
    lemma_with_files(start, facts, ids, ids.len() as int);
    lemma_covered(start, facts, kept, kept.len() as int);
    assert(covered(start.files) =~= Seq::empty());
    assert(covered(start.files) + shown_files(facts, kept, kept.len() as int) =~= shown_files(
        facts,
        kept,
        kept.len() as int,
    ));
    lemma_first_occurrences(ids, ids.len() as int);
    assert(ids.take(ids.len() as int) =~= ids);
    if forall|i: int| 0 <= i < ids.len() ==> is_shown(facts, #[trigger] ids[i]) {
        assert forall|i: int| 0 <= i < kept.len() implies is_shown(facts, #[trigger] kept[i]) by {
            assert(kept.contains(kept[i]));
        }
        lemma_all_shown(facts, kept, kept.len() as int);
        assert(kept.take(kept.len() as int) =~= kept);
    }
}

/// Listing a file more than once changes nothing: the index of some files is that of the files each
/// listed once.
pub proof fn law_repeated_files_change_nothing(analysis: Analysis, ids: Seq<FileId>)
    ensures
        index_of_files(analysis, distinct_files(ids)) == index_of_files(analysis, ids),
{
    let facts = analysis.files@;
    let start = empty_index(true);
    let kept = distinct_files(ids);
    lemma_first_occurrences(ids, ids.len() as int);
    assert(ids.take(ids.len() as int) =~= ids);
    lemma_nothing_repeated(kept, kept.len() as int);
    assert(kept.take(kept.len() as int) =~= kept);
    lemma_with_files(start, facts, ids, ids.len() as int);
    lemma_with_files(start, facts, kept, kept.len() as int);
    assert(raw_ids(kept) =~= raw_ids(ids)) by {
        assert forall|raw: u32| #[trigger] raw_ids(kept).contains(raw) <==> raw_ids(ids).contains(
            raw,
        ) by {
            assert(kept.contains(FileId(raw)) <==> ids.contains(FileId(raw)));
        }
    }
}

/// Whether every reference lies in one of the given files.
pub open spec fn refer_within(tokens: Seq<TokenStaticDataModel>, ids: Seq<FileId>) -> bool {
    forall|i: int, j: int|
        0 <= i < tokens.len() && 0 <= j < tokens[i].references.len() ==> ids.contains(
            (#[trigger] tokens[i].references[j]).range.file_id,
        )
}

/// What is kept while files are indexed.
spec fn stays_within(progress: Progress, ids: Seq<FileId>) -> bool {
    is_numbered(progress.tokens, progress.def_map) && refer_within(progress.tokens, ids)
}

proof fn lemma_met_within(
    progress: Progress,
    file: FileFacts,
    site: Site,
    definition: DefinitionFacts,
    graph: bool,
    ids: Seq<FileId>,
)
    requires
        stays_within(progress, ids),
    ensures
        stays_within(met(progress, file, site, definition, graph), ids),
        met(progress, file, site, definition, graph).def_map.contains_key(definition.handle),
{
    let known = met(progress, file, site, definition, graph);
    if !progress.def_map.contains_key(definition.handle) {
        let number = progress.tokens.len() as usize;
        assert(number < known.tokens.len());
        assert forall|handle: u64| #[trigger]
            known.def_map.contains_key(handle) implies known.def_map[handle]
            < known.tokens.len() by {
            if handle != definition.handle {
                assert(progress.def_map.contains_key(handle));
            }
        }
        assert forall|i: int, j: int|
            0 <= i < known.tokens.len() && 0 <= j
                < known.tokens[i].references.len() implies ids.contains(
            (#[trigger] known.tokens[i].references[j]).range.file_id,
        ) by {
            if i < progress.tokens.len() {
                assert(known.tokens[i] == progress.tokens[i]);
                assert(ids.contains(progress.tokens[i].references[j].range.file_id));
            }
        }
    }
}

proof fn lemma_use_within(
    progress: Progress,
    file: FileFacts,
    site: Site,
    definition: DefinitionFacts,
    role: StaticReferenceRole,
    graph: bool,
    ids: Seq<FileId>,
)
    requires
        stays_within(progress, ids),
        ids.contains(file.file_id),
    ensures
        stays_within(with_use(progress, file, site, definition, role, graph), ids),
{
    let known = met(progress, file, site, definition, graph);
    lemma_met_within(progress, file, site, definition, graph, ids);
    let number = known.def_map[definition.handle] as int;
    let token = known.tokens[number];
    let added = reference_to(file, site, definition, role, graph, token.stable_id);
    let after = with_use(progress, file, site, definition, role, graph);
    assert(after.tokens == known.tokens.update(number, with_reference(token, added)));
    assert forall|handle: u64| #[trigger]
        after.def_map.contains_key(handle) implies after.def_map[handle] < after.tokens.len() by {
        assert(known.def_map.contains_key(handle));
    }
    assert forall|i: int, j: int|
        0 <= i < after.tokens.len() && 0 <= j < after.tokens[i].references.len() implies ids.contains(
        (#[trigger] after.tokens[i].references[j]).range.file_id,
    ) by {
        if i != number {
            assert(ids.contains(known.tokens[i].references[j].range.file_id));
        } else if j < token.references.len() {
            assert(ids.contains(known.tokens[i].references[j].range.file_id));
            assert(after.tokens[i].references[j] == known.tokens[i].references[j]);
        } else {
            assert(after.tokens[i].references[j] == added);
        }
    }
}

proof fn lemma_uses_within(
    progress: Progress,
    file: FileFacts,
    token: TokenFacts,
    graph: bool,
    count: int,
    ids: Seq<FileId>,
)
    requires
        stays_within(progress, ids),
        ids.contains(file.file_id),
    ensures
        stays_within(with_uses(progress, file, token, graph, count), ids),
    decreases count,
{
    if count > 0 {
        lemma_uses_within(progress, file, token, graph, count - 1, ids);
        let (definition, role) = uses_of(token, graph)[count - 1];
        lemma_use_within(
            with_uses(progress, file, token, graph, count - 1),
            file,
            token.site,
            definition,
            role,
            graph,
            ids,
        );
    }
}

proof fn lemma_tokens_within(
    progress: Progress,
    file: FileFacts,
    graph: bool,
    count: int,
    ids: Seq<FileId>,
)
    requires
        stays_within(progress, ids),
        ids.contains(file.file_id),
    ensures
        stays_within(with_tokens(progress, file, graph, count), ids),
    decreases count,
{
    if count > 0 {
        lemma_tokens_within(progress, file, graph, count - 1, ids);
        let token = file.tokens@[count - 1];
        lemma_uses_within(
            with_tokens(progress, file, graph, count - 1),
            file,
            token,
            graph,
            uses_of(token, graph).len() as int,
            ids,
        );
    }
}

proof fn lemma_file_within(index: StaticIndexModel, file: FileFacts, ids: Seq<FileId>)
    requires
        is_numbered(index.tokens, index.def_map),
        refer_within(index.tokens, ids),
        ids.contains(file.file_id),
    ensures
        is_numbered(with_file(index, file).tokens, with_file(index, file).def_map),
        refer_within(with_file(index, file).tokens, ids),
{
    if file.displayed {
        let start = Progress { tokens: index.tokens, def_map: index.def_map, placed: Seq::empty() };
        let begun = with_module(start, file, index.graph);
        assert(stays_within(begun, ids)) by {
            match file.module {
                Some(module) => {
                    lemma_use_within(
                        start,
                        file,
                        file.root,
                        module,
                        StaticReferenceRole::Reference,
                        index.graph,
                        ids,
                    );
                },
                None => {},
            }
        }
        lemma_tokens_within(begun, file, index.graph, file.tokens@.len() as int, ids);
    }
}

proof fn lemma_files_within(graph: bool, facts: Seq<FileFacts>, ids: Seq<FileId>, count: int)
    requires
        0 <= count <= ids.len(),
    ensures
        ({
            let index = with_files(empty_index(graph), facts, ids, count);
            is_numbered(index.tokens, index.def_map) && refer_within(index.tokens, ids)
        }),
    decreases count,
{
    if count > 0 {
        lemma_files_within(graph, facts, ids, count - 1);
        lemma_facts_from(facts, ids[count - 1], 0);
        match facts_from(facts, ids[count - 1], 0) {
            Some(file) => {
                assert(ids.contains(file.file_id));
                lemma_file_within(
                    with_files(empty_index(graph), facts, ids, count - 1),
                    file,
                    ids,
                );
            },
            None => {},
        }
    }
}

/// The index of some files tells of nothing outside them: every reference and every relation lies
/// in one of them.
pub proof fn law_index_stays_within_the_files(analysis: Analysis, ids: Seq<FileId>)
    ensures
        refer_within(index_of_files(analysis, ids).tokens, ids),
        forall|relation: StaticRelationModel| #[trigger]
            index_of_files(analysis, ids).relations.contains(relation) ==> ids.contains(
                relation.file_id,
            ),
{
    lemma_files_within(true, analysis.files@, ids, ids.len() as int);
    let modules = visited(analysis.roots@);
    let files = Some(raw_ids(ids));
    lemma_sorted_relations(modules, files);
    assert forall|relation: StaticRelationModel| #[trigger]
        sorted_relations(modules, files).contains(relation) implies ids.contains(
        relation.file_id,
    ) by {
        let i = choose|i: int|
            0 <= i < modules.len() && is_wanted(#[trigger] modules[i], files)
                && modules[i].file_id == relation.file_id;
        assert(raw_ids(ids).contains(modules[i].file_id.0));
        assert(relation.file_id == FileId(relation.file_id.0));
    }
}

/// The source files of a graph are listed in strictly increasing order, and are exactly the files of
/// the modules that are indexed. Those of them that are shown are exactly the files that the index
/// of the graph covers: all of them, if all are shown. Without the libraries of the workspace, each
/// of them is the file of a module that is not part of a library.
pub proof fn law_source_files_are_the_index(analysis: Analysis, config: VendoredLibrariesConfig)
    ensures
        ({
            let sources = source_files(analysis.roots@, config);
            let modules = visited(analysis.roots@);
            let files = covered(index_of(analysis, config, true).files);
            &&& forall|i: int, j: int|
                0 <= i < j < sources.len() ==> (#[trigger] sources[i]).0 < (#[trigger] sources[j]).0
            &&& files.no_duplicates()
            &&& forall|id: FileId| #[trigger]
                files.contains(id) <==> sources.contains(id) && is_shown(analysis.files@, id)
            &&& (forall|i: int|
                0 <= i < modules.len() && is_indexed(#[trigger] modules[i], config) ==> is_shown(
                    analysis.files@,
                    modules[i].file_id,
                )) ==> forall|id: FileId| #[trigger] files.contains(id) <==> sources.contains(id)
            &&& forall|id: FileId| #[trigger]
                sources.contains(id) <==> exists|i: int|
                    0 <= i < modules.len() && is_indexed(#[trigger] modules[i], config)
                        && modules[i].file_id == id
            &&& config is Excluded ==> forall|id: FileId| #[trigger]
                sources.contains(id) ==> exists|i: int|
                    0 <= i < modules.len() && !(#[trigger] modules[i]).library && modules[i].file_id
                        == id
        }),
{
    let facts = analysis.files@;
    let start = empty_index(true);
    let modules = visited(analysis.roots@);
    let ids = indexed_files(modules, config, modules.len() as int);
    let kept = distinct_files(ids);
    let sources = source_files(analysis.roots@, config);
    let files = covered(index_of(analysis, config, true).files);
    law_source_files_are_distinct(analysis.roots@, config);
    lemma_with_files(start, facts, ids, ids.len() as int);
    lemma_covered(start, facts, kept, kept.len() as int);
    let shown = shown_files(facts, kept, kept.len() as int);
    assert(covered(start.files) =~= Seq::empty());
    assert(covered(start.files) + shown =~= shown);
    assert(files == shown);
    lemma_first_occurrences(ids, ids.len() as int);
    assert(ids.take(ids.len() as int) =~= ids);
    assert(kept.take(kept.len() as int) =~= kept);
    lemma_shown_distinct(facts, kept, kept.len() as int);
    assert forall|id: FileId| #[trigger]
        files.contains(id) <==> sources.contains(id) && is_shown(facts, id) by {
        lemma_shown_files(facts, kept, kept.len() as int, id);
        lemma_indexed_files(modules, config, modules.len() as int, id);
    }
    assert forall|id: FileId| config is Excluded && #[trigger]
        sources.contains(id) implies exists|i: int|
        0 <= i < modules.len() && !(#[trigger] modules[i]).library && modules[i].file_id == id by {
        let i = choose|i: int|
            0 <= i < modules.len() && is_indexed(#[trigger] modules[i], config)
                && modules[i].file_id == id;
        assert(!modules[i].library);
    }
}

proof fn lemma_shown_distinct(facts: Seq<FileFacts>, ids: Seq<FileId>, count: int)
    requires
        0 <= count <= ids.len(),
        ids.no_duplicates(),
    ensures
        shown_files(facts, ids, count).no_duplicates(),
    decreases count,
{
    if count > 0 {
        lemma_shown_distinct(facts, ids, count - 1);
        let shorter = shown_files(facts, ids, count - 1);
        let last = ids[count - 1];
        lemma_shown_files(facts, ids, count - 1, last);
        if ids.take(count - 1).contains(last) {
            let before = ids.take(count - 1);
            let i = choose|i: int| 0 <= i < before.len() && before[i] == last;
            assert(ids[i] == ids[count - 1]);
        }
        let all = shown_files(facts, ids, count);
        assert forall|i: int, j: int|
            0 <= i < all.len() && 0 <= j < all.len() && i != j implies all[i] != all[j] by {
            if i < shorter.len() {
                assert(shorter[i] == all[i]);
            }
            if j < shorter.len() {
                assert(shorter[j] == all[j]);
            }
        }
    }
}

} // verus!
