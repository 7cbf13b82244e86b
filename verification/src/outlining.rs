//! How far declarations reach, what they are called, who sees them, and which files hold them.

use vstd::prelude::*;

use crate::exports::{
    FileCrate, ModuleScope, Visibility, VisibilityChain, export_of, exported_under, full_name,
    is_visible, part_names, use_tree_from,
};
use crate::files::{
    FileId, FileRange, SourceFileModel, TextRange, evidence_of, location_path, source_of,
};
use crate::modules::{
    ModuleFacts, ModuleTree, VendoredLibrariesConfig, VfsPath, law_source_files_are_distinct,
    lies_below, source_files, visited,
};
use crate::moniker::{Moniker, MonikerResult};
use crate::roles::{Ancestor, Covering, NodeKind, TokenKind, first_kept, last_kept, trimmed};
use crate::text::{join, stands_at};

verus! {

/// Whether a token lies in a range.
pub open spec fn lies_in(token: TextRange, range: TextRange) -> bool {
    range.start <= token.start && token.end <= range.end
}

/// Whether a token is the first in a range that is neither white space nor a comment, other than one
/// that documents what follows it.
pub open spec fn is_first_word(
    tokens: Seq<(TextRange, TokenKind)>,
    range: TextRange,
    at: int,
) -> bool {
    &&& 0 <= at < tokens.len()
    &&& lies_in(tokens[at].0, range)
    &&& tokens[at].1 == TokenKind::DocComment || tokens[at].1 == TokenKind::Other
    &&& forall|i: int|
        0 <= i < at && lies_in((#[trigger] tokens[i]).0, range) ==> tokens[i].1
            == TokenKind::Whitespace || tokens[i].1 == TokenKind::Comment
}

/// Whether a token is the last in a range that is neither white space nor a comment of any kind.
pub open spec fn is_last_word(
    tokens: Seq<(TextRange, TokenKind)>,
    range: TextRange,
    at: int,
) -> bool {
    &&& 0 <= at < tokens.len()
    &&& lies_in(tokens[at].0, range)
    &&& tokens[at].1 == TokenKind::Other
    &&& forall|i: int|
        at < i < tokens.len() && lies_in((#[trigger] tokens[i]).0, range) ==> tokens[i].1
            != TokenKind::Other
}

proof fn lemma_first_kept(
    tokens: Seq<(TextRange, TokenKind)>,
    range: TextRange,
    at: int,
    count: int,
)
    requires
        is_first_word(tokens, range, at),
        0 <= count <= tokens.len(),
    ensures
        first_kept(tokens, range, count) == if at < count {
            Some(tokens[at].0)
        } else {
            None
        },
    decreases count,
{
    if count > 0 {
        lemma_first_kept(tokens, range, at, count - 1);
        assert(lies_in(tokens[count - 1].0, range) == range.encloses(tokens[count - 1].0));
    }
}

proof fn lemma_last_kept(
    tokens: Seq<(TextRange, TokenKind)>,
    range: TextRange,
    at: int,
    count: int,
)
    requires
        is_last_word(tokens, range, at),
        at < count <= tokens.len(),
    ensures
        last_kept(tokens, range, count) == Some(tokens[at].0),
    decreases count,
{
    assert(lies_in(tokens[count - 1].0, range) == range.encloses(tokens[count - 1].0));
    if count - 1 > at {
        lemma_last_kept(tokens, range, at, count - 1);
    }
}

proof fn lemma_none_kept(tokens: Seq<(TextRange, TokenKind)>, range: TextRange, count: int)
    requires
        0 <= count <= tokens.len(),
        forall|i: int|
            0 <= i < tokens.len() && lies_in((#[trigger] tokens[i]).0, range) ==> tokens[i].1
                != TokenKind::Other,
    ensures
        last_kept(tokens, range, count) is None,
    decreases count,
{
    if count > 0 {
        lemma_none_kept(tokens, range, count - 1);
        assert(lies_in(tokens[count - 1].0, range) == range.encloses(tokens[count - 1].0));
    }
}

/// A declaration reaches from its first word, or the comment that documents it, to its last word:
/// white space and other comments around it are left out.
pub proof fn law_declarations_reach_from_word_to_word(
    root: TextRange,
    range: TextRange,
    tokens: Vec<(TextRange, TokenKind)>,
    first: int,
    last: int,
)
    requires
        range != root,
        lies_in(range, root),
        is_first_word(tokens@, range, first),
        is_last_word(tokens@, range, last),
    ensures
        trimmed(root, range, Covering::Node(tokens)) == (TextRange {
            start: tokens@[first].0.start,
            end: tokens@[last].0.end,
        }),
{
    lemma_first_kept(tokens@, range, first, tokens@.len() as int);
    lemma_last_kept(tokens@, range, last, tokens@.len() as int);
    assert(root.encloses(range));
}

/// A declaration that is the whole file, that does not lie in it or that has no word keeps its range.
/// One inside a token reaches as far as the token where that is a word.
pub proof fn law_other_declarations_keep_their_range(
    root: TextRange,
    range: TextRange,
    covering: Covering,
)
    ensures
        range == root || !lies_in(range, root) ==> trimmed(root, range, covering) == range,
        covering matches Covering::Node(tokens) ==> (forall|i: int|
            0 <= i < tokens@.len() && lies_in((#[trigger] tokens@[i]).0, range) ==> tokens@[i].1
                != TokenKind::Other) ==> trimmed(root, range, covering) == range,
        covering matches Covering::Token(token, kind) ==> trimmed(root, range, covering) == if range
            != root && lies_in(range, root) && kind == TokenKind::Other {
            token
        } else {
            range
        },
{
    match covering {
        Covering::Node(tokens) => {
            if forall|i: int|
                0 <= i < tokens@.len() && lies_in((#[trigger] tokens@[i]).0, range) ==> tokens@[i].1
                    != TokenKind::Other {
                lemma_none_kept(tokens@, range, tokens@.len() as int);
            }
        },
        Covering::Token(token, kind) => {},
    }
}

/// Whether nothing hides a declaration: it is public itself, and none around it is private.
pub open spec fn is_open(chain: VisibilityChain) -> bool {
    chain.own == Some(true) && !chain.owners@.contains(Some(false))
}

/// A declaration is exported exactly where it is public, none around it is private, and the same
/// holds of the type that it is implemented for.
pub proof fn law_exported_means_open(visibility: Visibility)
    ensures
        is_visible(visibility) <==> is_open(visibility.chain) && (visibility.implementor matches Some(
            chain,
        ) ==> is_open(chain)),
{
    lemma_open(visibility.chain);
    if visibility.implementor is Some {
        lemma_open(visibility.implementor->0);
    }
}

proof fn lemma_open(chain: VisibilityChain)
    ensures
        is_open(chain) <==> crate::exports::is_public_chain(chain),
{
    if chain.owners@.contains(Some(false)) {
        let i = choose|i: int|
            0 <= i < chain.owners@.len() && chain.owners@[i] == Some(false);
        assert(chain.owners@[i] == Some(false));
    }
}

/// A declaration without a name across packages goes by its own name. A local one adds its name to
/// that of the declaration around it, if there is one; without a name it has none.
pub proof fn law_local_names_extend(
    enclosing: Option<Moniker>,
    name: Option<Seq<char>>,
)
    ensures
        full_name(None, name) == name,
        name is None ==> full_name(
            Some(MonikerResult::Local { enclosing_moniker: enclosing }),
            name,
        ) is None,
        name matches Some(own) ==> full_name(
            Some(MonikerResult::Local { enclosing_moniker: enclosing }),
            name,
        ) == Some(
            match enclosing {
                Some(moniker) => match full_name(Some(MonikerResult::Moniker(moniker)), None) {
                    Some(around) => around + "::"@ + own,
                    None => own,
                },
                None => own,
            },
        ),
{
    if name is Some {
        let parts = match enclosing {
            Some(moniker) => part_names(moniker.identifier.description@),
            None => Seq::empty(),
        };
        assert(parts.push(name->0).drop_last() =~= parts);
    }
}

/// The name of a declaration that has one across packages is that of the path to it: the names along
/// the path, from the outside in.
pub proof fn law_names_follow_the_path(moniker: Moniker, name: Option<Seq<char>>)
    ensures
        ({
            let path = moniker.identifier.description@;
            let found = full_name(Some(MonikerResult::Moniker(moniker)), name);
            &&& path.len() == 0 <==> found is None
            &&& path.len() == 1 ==> found == Some(path[0].name@)
            &&& path.len() > 1 ==> found == Some(
                join(part_names(path.drop_last()), "::"@) + "::"@ + path.last().name@,
            )
        }),
{
    let path = moniker.identifier.description@;
    if path.len() > 1 {
        assert(part_names(path).drop_last() =~= part_names(path.drop_last()));
    }
}

/// Whether a use tree is the innermost one around a range.
pub open spec fn is_innermost_tree(ancestors: Seq<Ancestor>, range: TextRange, at: int) -> bool {
    &&& 0 <= at < ancestors.len()
    &&& ancestors[at].kind == NodeKind::UseTree
    &&& lies_in(range, ancestors[at].range)
    &&& forall|i: int|
        0 <= i < at && (#[trigger] ancestors[i]).kind == NodeKind::UseTree ==> !lies_in(
            range,
            ancestors[i].range,
        )
}

proof fn lemma_use_tree(ancestors: Seq<Ancestor>, range: TextRange, at: int, from: int)
    requires
        is_innermost_tree(ancestors, range, at),
        0 <= from <= at,
    ensures
        use_tree_from(ancestors, range, from) == Some(ancestors[at]),
    decreases at - from,
{
    assert(lies_in(range, ancestors[from].range) == ancestors[from].range.encloses(range));
    if from < at {
        lemma_use_tree(ancestors, range, at, from + 1);
    }
}

/// What the innermost use tree around a reference renames is exported under that name, at the place of
/// the name. What it does not rename is exported under its own name, at the place of the reference.
pub proof fn law_exports_take_the_new_name(
    crates: Seq<FileCrate>,
    krate: int,
    scope: ModuleScope,
    target: Option<Seq<char>>,
    target_id: Seq<char>,
    at: FileRange,
    ancestors: Seq<Ancestor>,
    tree: int,
)
    requires
        0 <= krate < crates.len(),
        is_innermost_tree(ancestors, at.range, tree),
    ensures
        ({
            let found = export_of(
                crates,
                Some(krate),
                Some(scope),
                target,
                target_id,
                at,
                ancestors,
            );
            &&& ancestors[tree].rename matches Some(rename) ==> found is Some && found->0.alias
                == rename.0@ && found->0.alias_range == (FileRange {
                file_id: at.file_id,
                range: rename.1,
            })
            &&& ancestors[tree].rename is None ==> (found is Some <==> target is Some) && (
            found matches Some(export) ==> Some(export.alias) == target && export.alias_range == at)
        }),
{
    lemma_use_tree(ancestors, at.range, tree, 0);
}

/// A module exports under its own name, or under that of its crate where it has none: the name of an
/// export is that one and the alias, or the alias alone where both have none.
pub proof fn law_exports_are_qualified(
    scope: ModuleScope,
    krate: Option<int>,
    crate_name: Option<Seq<char>>,
    alias: Seq<char>,
    alias_range: FileRange,
    target_id: Seq<char>,
)
    ensures
        ({
            let found = exported_under(
                scope,
                krate,
                crate_name,
                alias,
                alias_range,
                target_id,
            ).qualified_name;
            let module = full_name(
                crate::exports::named_by(scope.monikers@, krate),
                scope.name.deep_view(),
            );
            &&& module matches Some(name) ==> name.len() > 0 ==> found == name + "::"@ + alias
            &&& module is None ==> (crate_name matches Some(name) ==> name.len() > 0 ==> found
                == name + "::"@ + alias)
            &&& module is None && crate_name is None ==> found == alias
        }),
{
}

/// Whether a file is that of a library inside a workspace: its path is that of the workspace with
/// something after it, or the same.
pub open spec fn is_inside(path: VfsPath, workspace: VfsPath) -> bool {
    match (path, workspace) {
        (VfsPath::Disk(path), VfsPath::Disk(base)) => base.deep_view().len()
            <= path.deep_view().len() && forall|i: int|
            0 <= i < base.deep_view().len() ==> #[trigger] path.deep_view()[i]
                == base.deep_view()[i],
        (VfsPath::Virtual(path), VfsPath::Virtual(base)) => base@.len() <= path@.len() && forall|
            i: int,
        |
            0 <= i < base@.len() ==> #[trigger] path@[i] == base@[i],
        _ => false,
    }
}

proof fn lemma_inside(path: VfsPath, workspace: VfsPath)
    ensures
        is_inside(path, workspace) <==> lies_below(path, workspace),
{
    match (path, workspace) {
        (VfsPath::Disk(path), VfsPath::Disk(base)) => {
            lemma_prefix(path.deep_view(), base.deep_view());
        },
        (VfsPath::Virtual(path), VfsPath::Virtual(base)) => {
            lemma_prefix(path@, base@);
            assert(stands_at(path@, base@, 0) <==> base@.is_prefix_of(path@));
        },
        _ => {},
    }
}

proof fn lemma_prefix<T>(whole: Seq<T>, part: Seq<T>)
    ensures
        part.is_prefix_of(whole) <==> part.len() <= whole.len() && forall|i: int|
            0 <= i < part.len() ==> #[trigger] whole[i] == part[i],
{
    if part.is_prefix_of(whole) {
        assert forall|i: int| 0 <= i < part.len() implies #[trigger] whole[i] == part[i] by {
            assert(whole.subrange(0, part.len() as int)[i] == part[i]);
        }
    } else if part.len() <= whole.len() && forall|i: int|
        0 <= i < part.len() ==> #[trigger] whole[i] == part[i] {
        assert(whole.subrange(0, part.len() as int) =~= part);
    }
}

/// Whether a module is one whose file is a source: one of the workspace itself, or of a library inside
/// it where those are asked for.
pub open spec fn is_sourced(module: ModuleFacts, config: VendoredLibrariesConfig) -> bool {
    module.library ==> (config matches VendoredLibrariesConfig::Included { workspace_root }
        && module.path is Some && is_inside(module.path->0, *workspace_root))
}

/// The sources of a workspace are the files of its own modules, always, and those of the libraries
/// inside it exactly where they are asked for. No library elsewhere is among them.
pub proof fn law_sources_are_those_of_the_workspace(
    roots: Seq<ModuleTree>,
    config: VendoredLibrariesConfig,
    file_id: FileId,
)
    ensures
        source_files(roots, config).contains(file_id) <==> exists|i: int|
            0 <= i < visited(roots).len() && is_sourced(#[trigger] visited(roots)[i], config)
                && visited(roots)[i].file_id == file_id,
{
    law_source_files_are_distinct(roots, config);
    let modules = visited(roots);
    assert forall|i: int| 0 <= i < modules.len() implies is_sourced(#[trigger] modules[i], config)
        == crate::modules::is_indexed(modules[i], config) by {
        match (config, modules[i].path) {
            (VendoredLibrariesConfig::Included { workspace_root }, Some(path)) => {
                lemma_inside(path, *workspace_root);
            },
            _ => {},
        }
    }
    if source_files(roots, config).contains(file_id) {
        let i = choose|i: int|
            0 <= i < modules.len() && crate::modules::is_indexed(#[trigger] modules[i], config)
                && modules[i].file_id == file_id;
        assert(is_sourced(modules[i], config));
    }
}

/// The modules of trees are the module of each and those inside it, and no others.
pub proof fn law_modules_are_those_of_the_trees(roots: Seq<ModuleTree>, module: ModuleFacts)
    ensures
        visited(roots).contains(module) <==> exists|i: int|
            0 <= i < roots.len() && ((#[trigger] roots[i]).module == module || visited(
                roots[i].children@,
            ).contains(module)),
    decreases roots.len(),
{
    if roots.len() > 0 {
        let last = roots.last();
        let rest = roots.drop_last();
        let inner = visited(last.children@);
        let before = visited(rest);
        law_modules_are_those_of_the_trees(rest, module);
        assert(visited(roots) == seq![last.module] + inner + before);
        if visited(roots).contains(module) {
            let k = choose|k: int| 0 <= k < visited(roots).len() && visited(roots)[k] == module;
            if k == 0 {
                assert(roots[roots.len() - 1].module == module);
            } else if k <= inner.len() {
                assert(inner[k - 1] == module);
                assert(roots[roots.len() - 1] == last);
            } else {
                assert(before[k - 1 - inner.len()] == module);
                let i = choose|i: int|
                    0 <= i < rest.len() && ((#[trigger] rest[i]).module == module || visited(
                        rest[i].children@,
                    ).contains(module));
                assert(roots[i] == rest[i]);
            }
        }
        if exists|i: int|
            0 <= i < roots.len() && ((#[trigger] roots[i]).module == module || visited(
                roots[i].children@,
            ).contains(module)) {
            let i = choose|i: int|
                0 <= i < roots.len() && ((#[trigger] roots[i]).module == module || visited(
                    roots[i].children@,
                ).contains(module));
            if i == roots.len() - 1 {
                if last.module == module {
                    assert(visited(roots)[0] == module);
                } else {
                    let k = choose|k: int| 0 <= k < inner.len() && inner[k] == module;
                    assert(visited(roots)[1 + k] == module);
                }
            } else {
                assert(rest[i] == roots[i]);
                let k = choose|k: int| 0 <= k < before.len() && before[k] == module;
                assert(visited(roots)[1 + inner.len() + k] == module);
            }
        }
    }
}

/// Evidence names the file of a range and counts its lines and columns from one. There is evidence
/// wherever the file and the positions of both ends are known and can be counted so.
pub proof fn law_evidence_counts_from_one(files: Map<FileId, SourceFileModel>, range: FileRange)
    ensures
        ({
            let found = evidence_of(files, range);
            let positions = files[range.file_id].positions->0;
            let start = positions[range.range.start];
            let end = positions[range.range.end];
            &&& found is Some <==> files.contains_key(range.file_id)
                && files[range.file_id].positions is Some && positions.contains_key(
                range.range.start,
            ) && positions.contains_key(range.range.end) && start.line + 1 <= u32::MAX
                && start.column + 1 <= u32::MAX && end.line + 1 <= u32::MAX && end.column + 1
                <= u32::MAX
            &&& found matches Some(evidence) ==> evidence.file == source_of(files, range.file_id)
                && evidence.start_line == start.line + 1 && evidence.start_column == start.column
                + 1 && evidence.end_line == end.line + 1 && evidence.end_column == end.column + 1
        }),
{
}

/// A file on disk goes by its path in the workspace where it lies in it, and by its whole path where
/// it does not, in either case with a slash for every backslash. Another file goes by its name.
pub proof fn law_files_go_by_their_paths(files: Map<FileId, SourceFileModel>, file_id: FileId)
    ensures
        files.contains_key(file_id) ==> ({
            let location = files[file_id].location;
            let found = source_of(files, file_id);
            &&& location.disk is None ==> found == location.name
            &&& location.disk matches Some(disk) ==> {
                let path = match disk.relative {
                    Some(relative) => relative,
                    None => disk.path,
                };
                &&& found.len() == path.len()
                &&& forall|i: int|
                    0 <= i < path.len() ==> (#[trigger] found[i]) == if path[i] == '\\' {
                        '/'
                    } else {
                        path[i]
                    }
            }
        }),
{
    assert(files.contains_key(file_id) ==> source_of(files, file_id) == location_path(
        files[file_id].location,
    ));
}

} // verus!
