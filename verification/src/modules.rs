//! The modules of a workspace, and which of them are indexed.

use vstd::prelude::*;

use crate::files::FileId;
use crate::paths::FsPath;
use crate::plain::Plain;
use crate::relations::{ImplFacts, TraitFacts, referred};
use crate::sorting::{
    Repeatable, drop_repeats, lemma_repeats_dropped, lemma_stable_sorted,
    lemma_stable_sorted_contains, lemma_without_repeats_contains, ranks_before, stable_sort,
    stable_sorted, without_repeats,
};
use crate::text::{stands_at, strip_text_prefix};

verus! {

/// The path of a source file.
#[derive(Debug, Clone, PartialEq, Eq)]
pub enum VfsPath {
    /// A path on disk.
    Disk(FsPath),
    /// A path that is not on disk.
    Virtual(String),
}

/// Whether a path is the same as another one or lies below it.
pub open spec fn lies_below(path: VfsPath, base: VfsPath) -> bool {
    match (path, base) {
        (VfsPath::Disk(path), VfsPath::Disk(base)) => base.deep_view().is_prefix_of(
            path.deep_view(),
        ),
        (VfsPath::Virtual(path), VfsPath::Virtual(base)) => stands_at(path@, base@, 0),
        _ => false,
    }
}

fn begins_with(path: &FsPath, base: &FsPath) -> (begins: bool)
    ensures
        begins == base.deep_view().is_prefix_of(path.deep_view()),
{
    let ghost whole = path.deep_view();
    let ghost part = base.deep_view();
    if base.len() > path.len() {
        return false;
    }
    let mut index: usize = 0;
    while index < base.len()
        invariant
            index <= base.len() <= path.len(),
            whole == path.deep_view(),
            part == base.deep_view(),
            forall|i: int| 0 <= i < index ==> part[i] == whole[i],
        decreases base.len() - index,
    {
        assert(part[index as int] == base@[index as int].deep_view());
        assert(whole[index as int] == path@[index as int].deep_view());
        if !base[index].same(&path[index]) {
            assert(whole.subrange(0, part.len() as int)[index as int] == whole[index as int]);
            return false;
        }
        index += 1;
    }
    assert(whole.subrange(0, part.len() as int) =~= part);
    true
}

impl VfsPath {
    /// Whether the path is the same as another one or lies below it.
    pub fn starts_with(&self, base: &VfsPath) -> (below: bool)
        ensures
            below == lies_below(*self, *base),
    {
        match (self, base) {
            (VfsPath::Disk(path), VfsPath::Disk(base)) => begins_with(path, base),
            (VfsPath::Virtual(path), VfsPath::Virtual(base)) => strip_text_prefix(
                path.as_str(),
                base.as_str(),
            ).is_some(),
            _ => false,
        }
    }
}

/// Whether libraries that lie in the workspace are indexed.
#[derive(Debug, Clone, Copy)]
pub enum VendoredLibrariesConfig<'a> {
    Included { workspace_root: &'a VfsPath },
    Excluded,
}

/// What is known of a module.
#[derive(Debug)]
pub struct ModuleFacts {
    /// The file that holds the module.
    pub file_id: FileId,
    /// Whether the file belongs to a library.
    pub library: bool,
    pub path: Option<VfsPath>,
    pub traits: Vec<TraitFacts>,
    pub impls: Vec<ImplFacts>,
}

/// A module with the modules inside it.
#[derive(Debug)]
pub struct ModuleTree {
    pub module: ModuleFacts,
    pub children: Vec<ModuleTree>,
}

/// The modules of trees: the last tree first, and a module before those inside it.
pub open spec fn visited(trees: Seq<ModuleTree>) -> Seq<ModuleFacts>
    decreases trees,
{
    if trees.len() == 0 {
        Seq::empty()
    } else {
        seq![trees.last().module] + visited(trees.last().children@) + visited(trees.drop_last())
    }
}

/// The number of modules of trees.
spec fn module_count(trees: Seq<ModuleTree>) -> nat
    decreases trees,
{
    if trees.len() == 0 {
        0
    } else {
        1 + module_count(trees.last().children@) + module_count(trees.drop_last())
    }
}

proof fn lemma_concatenation(left: Seq<ModuleTree>, right: Seq<ModuleTree>)
    ensures
        visited(left + right) == visited(right) + visited(left),
        module_count(left + right) == module_count(right) + module_count(left),
    decreases right.len(),
{
    if right.len() == 0 {
        assert(left + right =~= left);
        assert(visited(right) + visited(left) =~= visited(left));
    } else {
        assert((left + right).drop_last() =~= left + right.drop_last());
        assert((left + right).last() == right.last());
        lemma_concatenation(left, right.drop_last());
        assert(visited(left + right) =~= visited(right) + visited(left));
    }
}

/// The trees that a list of references refers to.
pub open spec fn trees_of(trees: Seq<&ModuleTree>) -> Seq<ModuleTree> {
    Seq::new(trees.len(), |i: int| *trees[i])
}

fn append_trees<'a>(worklist: &mut Vec<&'a ModuleTree>, trees: &'a Vec<ModuleTree>)
    ensures
        trees_of(final(worklist)@) == trees_of(old(worklist)@) + trees@,
{
    let ghost start = trees_of(worklist@);
    let mut index: usize = 0;
    assert(start =~= start + trees@.take(0));
    while index < trees.len()
        invariant
            index <= trees.len(),
            trees_of(worklist@) == start + trees@.take(index as int),
        decreases trees.len() - index,
    {
        let ghost before = trees_of(worklist@);
        worklist.push(&trees[index]);
        assert(trees_of(worklist@) =~= before.push(trees@[index as int]));
        assert(trees_of(worklist@) =~= start + trees@.take(index + 1));
        index += 1;
    }
    assert(trees@.take(index as int) =~= trees@);
}

/// All modules of a workspace.
pub fn all_modules(roots: &Vec<ModuleTree>) -> (modules: Vec<&ModuleFacts>)
    ensures
        referred(modules@) == visited(roots@),
{
    let mut worklist: Vec<&ModuleTree> = Vec::new();
    append_trees(&mut worklist, roots);
    assert(trees_of(worklist@) =~= roots@);
    let mut modules: Vec<&ModuleFacts> = Vec::new();
    assert(referred(modules@) + visited(roots@) =~= visited(roots@));
    while worklist.len() > 0
        invariant
            referred(modules@) + visited(trees_of(worklist@)) == visited(roots@),
        decreases module_count(trees_of(worklist@)),
    {
        let ghost pending = trees_of(worklist@);
        let ghost found = referred(modules@);
        match worklist.pop() {
            Some(tree) => {
                proof {
                    assert(trees_of(worklist@) =~= pending.drop_last());
                    lemma_concatenation(pending.drop_last(), tree.children@);
                }
                modules.push(&tree.module);
                append_trees(&mut worklist, &tree.children);
                proof {
                    assert(referred(modules@) =~= found.push(tree.module));
                    assert(referred(modules@) + visited(trees_of(worklist@)) =~= found + visited(
                        pending,
                    ));
                }
            },
            None => {},
        }
    }
    assert(visited(trees_of(worklist@)) =~= Seq::<ModuleFacts>::empty());
    assert(referred(modules@) =~= visited(roots@));
    modules
}

/// Whether a module is indexed: it belongs to no library, or to one that lies in the workspace
/// where such libraries are asked for.
pub open spec fn is_indexed(module: ModuleFacts, config: VendoredLibrariesConfig) -> bool {
    ||| !module.library
    ||| match (config, module.path) {
        (VendoredLibrariesConfig::Included { workspace_root }, Some(path)) => lies_below(
            path,
            *workspace_root,
        ),
        _ => false,
    }
}

/// Whether a module is indexed.
pub fn is_indexed_module(module: &ModuleFacts, config: VendoredLibrariesConfig<'_>) -> (indexed: bool)
    ensures
        indexed == is_indexed(*module, config),
{
    let vendored = match config {
        VendoredLibrariesConfig::Included { workspace_root } => match &module.path {
            Some(path) => path.starts_with(workspace_root),
            None => false,
        },
        VendoredLibrariesConfig::Excluded => false,
    };
    !module.library || vendored
}

/// The files of the first modules that are indexed.
pub open spec fn indexed_files(
    modules: Seq<ModuleFacts>,
    config: VendoredLibrariesConfig,
    count: int,
) -> Seq<FileId>
    decreases count,
{
    if count <= 0 {
        Seq::empty()
    } else if is_indexed(modules[count - 1], config) {
        indexed_files(modules, config, count - 1).push(modules[count - 1].file_id)
    } else {
        indexed_files(modules, config, count - 1)
    }
}

/// The files of the modules that are indexed, in the order of the modules.
pub fn collect_indexed(modules: &Vec<&ModuleFacts>, config: VendoredLibrariesConfig<'_>) -> (files: Vec<
    FileId,
>)
    ensures
        files@ == indexed_files(referred(modules@), config, modules@.len() as int),
{
    let ghost all = referred(modules@);
    let mut files: Vec<FileId> = Vec::new();
    let mut index: usize = 0;
    while index < modules.len()
        invariant
            index <= modules.len(),
            all == referred(modules@),
            files@ == indexed_files(all, config, index as int),
        decreases modules.len() - index,
    {
        let module = modules[index];
        assert(all[index as int] == *module);
        if is_indexed_module(module, config) {
            files.push(module.file_id);
        }
        index += 1;
    }
    files
}

impl Repeatable for FileId {
    open spec fn repeats(kept: FileId, next: FileId) -> bool {
        kept == next
    }

    fn is_repeated_by(&self, next: &Self) -> (repeated: bool) {
        *self == *next
    }
}

/// The files that are indexed, each once and in increasing order.
pub open spec fn source_files(roots: Seq<ModuleTree>, config: VendoredLibrariesConfig) -> Seq<FileId> {
    let modules = visited(roots);
    without_repeats::<FileId>(
        stable_sorted::<FileId>(indexed_files(modules, config, modules.len() as int)),
    )
}

/// The files that are indexed, each once and in increasing order.
pub fn list_source_files(roots: &Vec<ModuleTree>, config: VendoredLibrariesConfig<'_>) -> (files: Vec<
    FileId,
>)
    ensures
        files@ == source_files(roots@, config),
{
    let modules = all_modules(roots);
    let mut files = collect_indexed(&modules, config);
    assert(files.deep_view() =~= files@);
    stable_sort(&mut files);
    drop_repeats(&mut files);
    assert(files.deep_view() =~= files@);
    files
}

pub proof fn lemma_indexed_files(
    modules: Seq<ModuleFacts>,
    config: VendoredLibrariesConfig,
    count: int,
    id: FileId,
)
    requires
        0 <= count <= modules.len(),
    ensures
        indexed_files(modules, config, count).contains(id) <==> exists|i: int|
            0 <= i < count && is_indexed(#[trigger] modules[i], config) && modules[i].file_id == id,
    decreases count,
{
    if count > 0 {
        lemma_indexed_files(modules, config, count - 1, id);
        let shorter = indexed_files(modules, config, count - 1);
        let files = indexed_files(modules, config, count);
        if shorter.contains(id) {
            let i = choose|i: int| 0 <= i < shorter.len() && shorter[i] == id;
            assert(files[i] == id);
        }
        if is_indexed(modules[count - 1], config) && modules[count - 1].file_id == id {
            assert(files[shorter.len() as int] == id);
        }
        if files.contains(id) {
            let i = choose|i: int| 0 <= i < files.len() && files[i] == id;
            if i < shorter.len() {
                assert(shorter[i] == id);
            } else {
                assert(is_indexed(modules[count - 1], config));
            }
        }
    }
}

/// The source files of a workspace come once each and in increasing order, and are exactly those
/// of the modules that are indexed.
pub proof fn law_source_files_are_distinct(roots: Seq<ModuleTree>, config: VendoredLibrariesConfig)
    ensures
        forall|i: int, j: int|
            0 <= i < j < source_files(roots, config).len() ==> (#[trigger] source_files(
                roots,
                config,
            )[i]).0 < (#[trigger] source_files(roots, config)[j]).0,
        forall|id: FileId| #[trigger]
            source_files(roots, config).contains(id) <==> exists|i: int|
                0 <= i < visited(roots).len() && is_indexed(#[trigger] visited(roots)[i], config)
                    && visited(roots)[i].file_id == id,
{
    let modules = visited(roots);
    let files = indexed_files(modules, config, modules.len() as int);
    let sorted = stable_sorted::<FileId>(files);
    let kept = source_files(roots, config);
    lemma_stable_sorted::<FileId>(files);
    lemma_repeats_dropped::<FileId>(sorted);
    assert forall|i: int, j: int| 0 <= i < j < kept.len() implies (#[trigger] kept[i]).0 < (
    #[trigger] kept[j]).0 by {
        assert(ranks_before::<FileId>(kept[i], kept[j]));
    }
    assert forall|id: FileId| #[trigger] kept.contains(id) <==> exists|i: int|
        0 <= i < modules.len() && is_indexed(#[trigger] modules[i], config) && modules[i].file_id
            == id by {
        lemma_without_repeats_contains::<FileId>(sorted, id);
        lemma_stable_sorted_contains::<FileId>(files, id);
        lemma_indexed_files(modules, config, modules.len() as int, id);
    }
}

} // verus!
