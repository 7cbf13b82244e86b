//! Which files a snapshot depends on besides the source files, and when they are as they were known.

use vstd::prelude::*;
use vstd::utf8::{decode_utf8, valid_utf8};

use crate::digest::digest_of;
use crate::disk::{
    DiskReadModel, ModelOnDiskModel, SourceLocationModel, model_validated, moved_input,
    source_digest, source_digests, source_roots, unix_lines,
};
use crate::error::GraphErrorModel;
use crate::external::{
    ExternalGraphInput, ExternalGraphInputModel, LocatedPathModel, PackageInputModel,
    ToolPlaceModel, ToolProbeModel, WorkspaceInputsModel, all_package_inputs, all_workspace_inputs,
    candidate, found_tool, inputs_of, package_inputs, search_path, tool_found, tool_place,
    workspace_inputs,
};
use crate::files::{FileId, SourceFileModel};
use crate::paths::{PathModel, joined, parent_of, watchable_parent};
use crate::sorting::{
    lemma_neighbours_differ, lemma_stable_sorted, lemma_stable_sorted_contains, stable_sorted,
    without_repeats,
};
use crate::universe::{ProjectInputModel, WorkspaceFactsModel};

verus! {

/// Whether an input is a path under a label.
pub open spec fn is_labelled(
    input: ExternalGraphInputModel,
    label: Seq<char>,
    located: LocatedPathModel,
    optional: bool,
) -> bool {
    &&& input.identity == label + located.text
    &&& input.root == located.path
    &&& input.root_bytes == located.bytes
    &&& input.optional == optional
}

/// Whether an input is the directory of a package that lies on disk and is no member of the workspace.
pub open spec fn is_package_input(
    input: ExternalGraphInputModel,
    package: PackageInputModel,
) -> bool {
    &&& package.is_local
    &&& !package.is_member
    &&& input.identity == "path-package="@ + package.id + ":"@ + package.manifest
    &&& input.root == package.directory.path
    &&& input.root_bytes == package.directory.bytes
    &&& !input.optional
}

/// Whether a workspace depends on an input: the directory of a package outside of it, a file that its
/// project model was made from, which may be missing, its compiler, its cargo, the sources of its
/// standard library, or the macro server, which is the one that is configured and else its own.
pub open spec fn depends_on(
    workspace: WorkspaceInputsModel,
    server: Option<LocatedPathModel>,
    input: ExternalGraphInputModel,
) -> bool {
    ||| exists|p: int|
        0 <= p < workspace.packages.len() && is_package_input(
            input,
            #[trigger] workspace.packages[p],
        )
    ||| exists|i: int|
        0 <= i < workspace.project_inputs.len() && is_labelled(
            input,
            "project-input="@,
            #[trigger] workspace.project_inputs[i],
            true,
        )
    ||| is_labelled(input, "rustc="@, workspace.rustc, false)
    ||| workspace.cargo is Some && is_labelled(input, "cargo="@, workspace.cargo->0, false)
    ||| workspace.rust_lib_src is Some && is_labelled(
        input,
        "rust-lib-src="@,
        workspace.rust_lib_src->0,
        false,
    )
    ||| server is Some && is_labelled(input, "proc-macro-server="@, server->0, false)
    ||| server is None && workspace.sysroot_server is Some && is_labelled(
        input,
        "proc-macro-server="@,
        workspace.sysroot_server->0,
        false,
    )
}

proof fn lemma_joined_inputs(
    left: Seq<ExternalGraphInputModel>,
    right: Seq<ExternalGraphInputModel>,
    input: ExternalGraphInputModel,
)
    ensures
        (left + right).contains(input) <==> left.contains(input) || right.contains(input),
{
    let all = left + right;
    if left.contains(input) {
        let i = choose|i: int| 0 <= i < left.len() && left[i] == input;
        assert(all[i] == input);
    }
    if right.contains(input) {
        let i = choose|i: int| 0 <= i < right.len() && right[i] == input;
        assert(all[left.len() + i] == input);
    }
}

proof fn lemma_package_inputs(
    packages: Seq<PackageInputModel>,
    count: int,
    input: ExternalGraphInputModel,
)
    requires
        0 <= count <= packages.len(),
    ensures
        package_inputs(packages, count).contains(input) <==> exists|p: int|
            0 <= p < count && is_package_input(input, #[trigger] packages[p]),
    decreases count,
{
    if count > 0 {
        lemma_package_inputs(packages, count - 1, input);
        let package = packages[count - 1];
        let before = package_inputs(packages, count - 1);
        let made = crate::external::package_input(package);
        assert(is_package_input(input, package) <==> package.is_local && !package.is_member && input
            == made);
        if package.is_local && !package.is_member {
            assert(package_inputs(packages, count) =~= before + seq![made]);
            lemma_joined_inputs(before, seq![made], input);
            assert(seq![made].contains(input) <==> input == made) by {
                assert(seq![made][0] == made);
            }
        }
        if before.contains(input) {
            let p = choose|p: int| 0 <= p < count - 1 && is_package_input(
                input,
                #[trigger] packages[p],
            );
            assert(is_package_input(input, packages[p]));
        }
    }
}

proof fn lemma_workspace_inputs(
    workspace: WorkspaceInputsModel,
    server: Option<LocatedPathModel>,
    input: ExternalGraphInputModel,
)
    ensures
        package_inputs(workspace.packages, workspace.packages.len() as int).contains(input)
            || workspace_inputs(workspace, server).contains(input) <==> depends_on(
            workspace,
            server,
            input,
        ),
{
    lemma_package_inputs(workspace.packages, workspace.packages.len() as int, input);
    let project = crate::external::project_inputs(workspace.project_inputs);
    let rustc = crate::external::labelled_input("rustc="@, workspace.rustc, false);
    let cargo = crate::external::optional_input("cargo="@, workspace.cargo);
    let library = crate::external::optional_input("rust-lib-src="@, workspace.rust_lib_src);
    let macros = crate::external::optional_input(
        "proc-macro-server="@,
        match server {
            Some(server) => Some(server),
            None => workspace.sysroot_server,
        },
    );
    assert(workspace_inputs(workspace, server) =~= project + seq![rustc] + cargo + library
        + macros);
    lemma_joined_inputs(project, seq![rustc], input);
    lemma_joined_inputs(project + seq![rustc], cargo, input);
    lemma_joined_inputs(project + seq![rustc] + cargo, library, input);
    lemma_joined_inputs(project + seq![rustc] + cargo + library, macros, input);
    assert(seq![rustc].contains(input) <==> input == rustc) by {
        assert(seq![rustc][0] == rustc);
    }
    assert(cargo.contains(input) <==> cargo.len() > 0 && input == cargo[0]);
    assert(library.contains(input) <==> library.len() > 0 && input == library[0]);
    assert(macros.contains(input) <==> macros.len() > 0 && input == macros[0]);
    if project.contains(input) {
        let i = choose|i: int| 0 <= i < project.len() && project[i] == input;
        assert(is_labelled(input, "project-input="@, workspace.project_inputs[i], true));
    }
    if exists|i: int|
        0 <= i < workspace.project_inputs.len() && is_labelled(
            input,
            "project-input="@,
            #[trigger] workspace.project_inputs[i],
            true,
        ) {
        let i = choose|i: int|
            0 <= i < workspace.project_inputs.len() && is_labelled(
                input,
                "project-input="@,
                #[trigger] workspace.project_inputs[i],
                true,
            );
        assert(project[i] == input);
    }
}

proof fn lemma_all_inputs(
    workspaces: Seq<WorkspaceInputsModel>,
    server: Option<LocatedPathModel>,
    count: int,
    input: ExternalGraphInputModel,
)
    requires
        0 <= count <= workspaces.len(),
    ensures
        all_package_inputs(workspaces, count).contains(input) || all_workspace_inputs(
            workspaces,
            server,
            count,
        ).contains(input) <==> exists|w: int|
            0 <= w < count && depends_on(#[trigger] workspaces[w], server, input),
    decreases count,
{
    if count > 0 {
        let workspace = workspaces[count - 1];
        lemma_all_inputs(workspaces, server, count - 1, input);
        lemma_workspace_inputs(workspace, server, input);
        lemma_joined_inputs(
            all_package_inputs(workspaces, count - 1),
            package_inputs(workspace.packages, workspace.packages.len() as int),
            input,
        );
        lemma_joined_inputs(
            all_workspace_inputs(workspaces, server, count - 1),
            workspace_inputs(workspace, server),
            input,
        );
        if exists|w: int| 0 <= w < count - 1 && depends_on(#[trigger] workspaces[w], server, input) {
            let w = choose|w: int|
                0 <= w < count - 1 && depends_on(#[trigger] workspaces[w], server, input);
            assert(depends_on(workspaces[w], server, input));
        }
    }
}

proof fn lemma_input_kept(inputs: Seq<ExternalGraphInputModel>, input: ExternalGraphInputModel)
    requires
        inputs.contains(input),
    ensures
        is_among(without_repeats::<ExternalGraphInput>(inputs), input),
    decreases inputs.len(),
{
    let shorter = inputs.drop_last();
    let before = without_repeats::<ExternalGraphInput>(shorter);
    let kept = without_repeats::<ExternalGraphInput>(inputs);
    if shorter.contains(input) {
        lemma_input_kept(shorter, input);
        let i = choose|i: int|
            0 <= i < before.len() && (#[trigger] before[i]).identity == input.identity
                && before[i].root == input.root && before[i].optional == input.optional;
        assert(kept[i] == before[i]);
    } else {
        let i = choose|i: int| 0 <= i < inputs.len() && inputs[i] == input;
        if i < shorter.len() {
            assert(shorter[i] == input);
        }
        assert(inputs.last() == input);
        assert(kept[kept.len() - 1].identity == input.identity);
    }
}

/// Whether an input is listed: one of the same identity, at the same place, and that may be missing
/// or not alike.
pub open spec fn is_among(
    inputs: Seq<ExternalGraphInputModel>,
    input: ExternalGraphInputModel,
) -> bool {
    exists|i: int|
        0 <= i < inputs.len() && (#[trigger] inputs[i]).identity == input.identity && inputs[i].root
            == input.root && inputs[i].optional == input.optional
}

/// The external inputs of workspaces are those that one of them depends on: every one of these is
/// listed, and nothing else is.
pub proof fn law_inputs_are_what_workspaces_depend_on(
    workspaces: Seq<WorkspaceInputsModel>,
    server: Option<LocatedPathModel>,
)
    ensures
        forall|input: ExternalGraphInputModel, w: int|
            0 <= w < workspaces.len() && #[trigger] depends_on(workspaces[w], server, input)
                ==> is_among(inputs_of(workspaces, server), input),
        forall|i: int|
            0 <= i < inputs_of(workspaces, server).len() ==> is_dependency(
                workspaces,
                server,
                #[trigger] inputs_of(workspaces, server)[i],
            ),
{
    let count = workspaces.len() as int;
    let all = all_package_inputs(workspaces, count) + all_workspace_inputs(
        workspaces,
        server,
        count,
    );
    let sorted = stable_sorted::<ExternalGraphInput>(all);
    let found = inputs_of(workspaces, server);
    lemma_stable_sorted::<ExternalGraphInput>(all);
    lemma_neighbours_differ::<ExternalGraphInput>(sorted);
    assert forall|input: ExternalGraphInputModel, w: int|
        0 <= w < workspaces.len() && #[trigger] depends_on(
            workspaces[w],
            server,
            input,
        ) implies is_among(found, input) by {
        lemma_all_inputs(workspaces, server, count, input);
        lemma_joined_inputs(
            all_package_inputs(workspaces, count),
            all_workspace_inputs(workspaces, server, count),
            input,
        );
        lemma_stable_sorted_contains::<ExternalGraphInput>(all, input);
        lemma_input_kept(sorted, input);
    }
    assert forall|i: int| 0 <= i < found.len() implies is_dependency(
        workspaces,
        server,
        #[trigger] found[i],
    ) by {
        lemma_stable_sorted_contains::<ExternalGraphInput>(all, found[i]);
        lemma_all_inputs(workspaces, server, count, found[i]);
        lemma_joined_inputs(
            all_package_inputs(workspaces, count),
            all_workspace_inputs(workspaces, server, count),
            found[i],
        );
    }
}

/// Whether one of workspaces depends on an input.
pub open spec fn is_dependency(
    workspaces: Seq<WorkspaceInputsModel>,
    server: Option<LocatedPathModel>,
    input: ExternalGraphInputModel,
) -> bool {
    exists|w: int| 0 <= w < workspaces.len() && depends_on(#[trigger] workspaces[w], server, input)
}

/// Whether a candidate for a tool is a file, as it stands or with the extension of executables.
pub open spec fn is_tool(probe: ToolProbeModel) -> bool {
    probe.is_file || (probe.extended is Some && (probe.extended->0).1)
}

/// A tool is the first candidate that is a file, as it stands where it is one and else with the
/// extension of executables. Where none is a file, there is none.
pub proof fn law_tools_are_the_first_found(probes: Seq<ToolProbeModel>, tool: Seq<char>, at: int)
    ensures
        0 <= at < probes.len() && is_tool(probes[at]) && (forall|i: int|
            0 <= i < at ==> !is_tool(#[trigger] probes[i])) ==> tool_found(probes, tool) == Ok::<
            PathModel,
            GraphErrorModel,
        >(
            if probes[at].is_file {
                probes[at].path
            } else {
                (probes[at].extended->0).0
            },
        ),
        (forall|i: int| 0 <= i < probes.len() ==> !is_tool(#[trigger] probes[i])) ==> tool_found(
            probes,
            tool,
        ) is Err,
{
    if 0 <= at < probes.len() && is_tool(probes[at]) && (forall|i: int|
        0 <= i < at ==> !is_tool(#[trigger] probes[i])) {
        lemma_found(probes, at);
    }
    if forall|i: int| 0 <= i < probes.len() ==> !is_tool(#[trigger] probes[i]) {
        lemma_not_found(probes);
    }
}

proof fn lemma_found(probes: Seq<ToolProbeModel>, at: int)
    requires
        0 <= at < probes.len(),
        is_tool(probes[at]),
        forall|i: int| 0 <= i < at ==> !is_tool(#[trigger] probes[i]),
    ensures
        found_tool(probes) == Some(
            if probes[at].is_file {
                probes[at].path
            } else {
                (probes[at].extended->0).0
            },
        ),
    decreases at,
{
    if at > 0 {
        let rest = probes.drop_first();
        assert(!is_tool(probes[0]));
        assert forall|i: int| 0 <= i < at - 1 implies !is_tool(#[trigger] rest[i]) by {
            assert(rest[i] == probes[i + 1]);
        }
        lemma_found(rest, at - 1);
    }
}

proof fn lemma_not_found(probes: Seq<ToolProbeModel>)
    requires
        forall|i: int| 0 <= i < probes.len() ==> !is_tool(#[trigger] probes[i]),
    ensures
        found_tool(probes) is None,
    decreases probes.len(),
{
    if probes.len() > 0 {
        let rest = probes.drop_first();
        assert(!is_tool(probes[0]));
        assert forall|i: int| 0 <= i < rest.len() implies !is_tool(#[trigger] rest[i]) by {
            assert(rest[i] == probes[i + 1]);
        }
        lemma_not_found(rest);
    }
}

/// Whether a variable is the search path: `PATH` as it is written, or in whichever case where case
/// does not matter.
pub open spec fn names_search_path(name: Seq<char>, ignore_case: bool) -> bool {
    if ignore_case {
        &&& name.len() == 4
        &&& name[0] == 'P' || name[0] == 'p'
        &&& name[1] == 'A' || name[1] == 'a'
        &&& name[2] == 'T' || name[2] == 't'
        &&& name[3] == 'H' || name[3] == 'h'
    } else {
        name == "PATH"@
    }
}

proof fn lemma_capital(c: char, great: char, small: char)
    requires
        'A' <= great <= 'Z',
        small as u32 == great as u32 + 32,
    ensures
        crate::external::capital(c) == crate::external::capital(great) <==> c == great || c == small,
{
}

proof fn lemma_names(name: Seq<char>, ignore_case: bool)
    ensures
        names_search_path(name, ignore_case) <==> crate::external::is_search_path(
            name,
            ignore_case,
        ),
{
    reveal_strlit("PATH");
    let path = "PATH"@;
    assert(path.len() == 4 && path[0] == 'P' && path[1] == 'A' && path[2] == 'T' && path[3] == 'H');
    if ignore_case && name.len() == 4 {
        lemma_capital(name[0], 'P', 'p');
        lemma_capital(name[1], 'A', 'a');
        lemma_capital(name[2], 'T', 't');
        lemma_capital(name[3], 'H', 'h');
        if names_search_path(name, ignore_case) {
            assert forall|i: int| 0 <= i < name.len() implies crate::external::capital(
                #[trigger] name[i],
            ) == crate::external::capital(path[i]) by {
                assert(i == 0 || i == 1 || i == 2 || i == 3);
            }
        }
        if crate::external::alike(name, path) {
            assert(crate::external::capital(name[0]) == crate::external::capital(path[0]));
            assert(crate::external::capital(name[1]) == crate::external::capital(path[1]));
            assert(crate::external::capital(name[2]) == crate::external::capital(path[2]));
            assert(crate::external::capital(name[3]) == crate::external::capital(path[3]));
        }
    }
}

/// The search path of an environment is the value of its first variable of that name.
pub proof fn law_search_path_is_the_first(
    environment: Seq<(Seq<char>, Seq<char>)>,
    ignore_case: bool,
    at: int,
)
    ensures
        0 <= at < environment.len() && names_search_path(environment[at].0, ignore_case) && (forall|
            i: int,
        |
            0 <= i < at ==> !names_search_path((#[trigger] environment[i]).0, ignore_case))
            ==> search_path(environment, ignore_case) == Some(environment[at].1),
        (forall|i: int|
            0 <= i < environment.len() ==> !names_search_path(
                (#[trigger] environment[i]).0,
                ignore_case,
            )) ==> search_path(environment, ignore_case) is None,
    decreases environment.len(),
{
    if environment.len() > 0 {
        let rest = environment.drop_first();
        lemma_names(environment[0].0, ignore_case);
        assert forall|i: int| 0 <= i < rest.len() implies #[trigger] rest[i] == environment[i
            + 1] by {}
        law_search_path_is_the_first(rest, ignore_case, at - 1);
        if 0 < at < environment.len() && names_search_path(environment[at].0, ignore_case)
            && forall|i: int|
            0 <= i < at ==> !names_search_path((#[trigger] environment[i]).0, ignore_case) {
            assert(rest[at - 1] == environment[at]);
            assert(!names_search_path(environment[0].0, ignore_case));
        }
        if forall|i: int|
            0 <= i < environment.len() ==> !names_search_path(
                (#[trigger] environment[i]).0,
                ignore_case,
            ) {
            assert(!names_search_path(environment[0].0, ignore_case));
        }
    }
}

/// A tool without a path is an error. One with an absolute path is there; one with a relative path of
/// several parts is there below the workspace. Any other is searched for along the search path of its
/// own environment, or else along that of the process; without either that is an error.
pub proof fn law_tools_are_searched_for_by_name(
    tool: LocatedPathModel,
    is_absolute: bool,
    workspace_root: PathModel,
    environment: Option<Seq<(Seq<char>, Seq<char>)>>,
    ignore_case: bool,
    process_has_path: bool,
)
    ensures
        ({
            let found = tool_place(
                tool,
                is_absolute,
                workspace_root,
                environment,
                ignore_case,
                process_has_path,
            );
            let by_name = tool.bytes.len() > 0 && !is_absolute && watchable_parent(tool.path)
                is None;
            let own = environment is Some && search_path(environment->0, ignore_case) is Some;
            &&& found is Err <==> tool.bytes.len() == 0 || (by_name && !own && !process_has_path)
            &&& tool.bytes.len() > 0 && is_absolute ==> found == Ok::<_, GraphErrorModel>(
                ToolPlaceModel::At(tool.path),
            )
            &&& tool.bytes.len() > 0 && !is_absolute && !by_name ==> found == Ok::<
                _,
                GraphErrorModel,
            >(ToolPlaceModel::At(joined(workspace_root, tool.path)))
            &&& by_name && own ==> found == Ok::<_, GraphErrorModel>(
                ToolPlaceModel::Search(search_path(environment->0, ignore_case)->0),
            )
            &&& by_name && !own && process_has_path ==> found == Ok::<_, GraphErrorModel>(
                ToolPlaceModel::SearchProcess,
            )
        }),
{
}

/// A candidate for a tool stands in a directory of the search path. An empty one is the root of the
/// workspace, and a relative one lies below it.
pub proof fn law_candidates_stand_in_the_search_path(
    directory: PathModel,
    is_absolute: bool,
    workspace_root: PathModel,
    tool: PathModel,
)
    ensures
        directory.len() == 0 ==> candidate(directory, is_absolute, workspace_root, tool) == joined(
            workspace_root,
            tool,
        ),
        directory.len() > 0 && is_absolute ==> candidate(
            directory,
            is_absolute,
            workspace_root,
            tool,
        ) == joined(directory, tool),
        directory.len() > 0 && !is_absolute ==> candidate(
            directory,
            is_absolute,
            workspace_root,
            tool,
        ) == joined(joined(workspace_root, directory), tool),
{
}

/// A text with a carriage return before each line feed.
pub open spec fn dos_lines(text: Seq<char>) -> Seq<char>
    decreases text.len(),
{
    if text.len() == 0 {
        Seq::empty()
    } else if text.last() == '\n' {
        dos_lines(text.drop_last()) + seq!['\r', '\n']
    } else {
        dos_lines(text.drop_last()).push(text.last())
    }
}

proof fn lemma_unix_prefix(text: Seq<char>, more: Seq<char>, count: int)
    requires
        0 <= count <= text.len(),
        count < text.len() || more.len() == 0 || more[0] != '\n' || text.len() == 0 || text.last()
            != '\r',
    ensures
        unix_lines(text + more, count) == unix_lines(text, count),
    decreases count,
{
    if count > 0 {
        lemma_unix_prefix(text, more, count - 1);
    }
}

proof fn lemma_dos(text: Seq<char>)
    requires
        !text.contains('\r'),
    ensures
        unix_lines(dos_lines(text), dos_lines(text).len() as int) == text,
        dos_lines(text).len() > 0 ==> dos_lines(text).last() != '\r',
    decreases text.len(),
{
    if text.len() > 0 {
        let shorter = text.drop_last();
        let before = dos_lines(shorter);
        let all = dos_lines(text);
        assert(!shorter.contains('\r')) by {
            if shorter.contains('\r') {
                let i = choose|i: int| 0 <= i < shorter.len() && shorter[i] == '\r';
                assert(text[i] == '\r');
            }
        }
        assert(text.last() != '\r') by {
            assert(text[text.len() - 1] == text.last());
        }
        lemma_dos(shorter);
        assert(text =~= shorter.push(text.last()));
        if text.last() == '\n' {
            let ends = seq!['\r', '\n'];
            assert(all == before + ends);
            lemma_unix_prefix(before, ends, before.len() as int);
            let length = all.len() as int;
            assert(all[length - 1] == '\n' && all[length - 2] == '\r');
            assert(unix_lines(all, length - 2) == shorter);
            assert(unix_lines(all, length - 1) == unix_lines(all, length - 2));
            assert(unix_lines(all, length) == unix_lines(all, length - 1).push('\n'));
        } else {
            assert(all =~= before + seq![text.last()]);
            lemma_unix_prefix(before, seq![text.last()], before.len() as int);
            assert(unix_lines(all, all.len() as int) == unix_lines(all, all.len() - 1).push(
                text.last(),
            ));
        }
    }
}

proof fn lemma_unix_kept(text: Seq<char>, count: int)
    requires
        0 <= count <= text.len(),
        !text.contains('\n') || !text.contains('\r'),
    ensures
        unix_lines(text, count) == text.take(count),
    decreases count,
{
    if count > 0 {
        lemma_unix_kept(text, count - 1);
        assert(text.take(count) =~= text.take(count - 1).push(text[count - 1]));
        if text[count - 1] == '\r' {
            assert(text.contains('\r'));
            if count < text.len() && text[count] == '\n' {
                assert(text.contains('\n'));
            }
        }
    } else {
        assert(text.take(0) =~= Seq::<char>::empty());
    }
}

/// A text reads the same whether its lines end in line feeds alone or in carriage returns and line
/// feeds. Carriage returns that end no line are kept.
pub proof fn law_line_endings_do_not_matter(text: Seq<char>)
    ensures
        !text.contains('\r') ==> unix_lines(dos_lines(text), dos_lines(text).len() as int) == text,
        !text.contains('\r') || !text.contains('\n') ==> unix_lines(text, text.len() as int) == text,
{
    if !text.contains('\r') {
        lemma_dos(text);
    }
    if !text.contains('\r') || !text.contains('\n') {
        lemma_unix_kept(text, text.len() as int);
        assert(text.take(text.len() as int) =~= text);
    }
}

/// Whether a source file is on disk as it is known: it is known, lies on disk, could be read, and
/// holds the known text but for its line endings.
pub open spec fn is_as_known(
    files: Map<FileId, SourceFileModel>,
    file_id: FileId,
    read: DiskReadModel,
) -> bool {
    &&& files.contains_key(file_id)
    &&& files[file_id].text is Some
    &&& files[file_id].location.disk is Some
    &&& read is Bytes
    &&& valid_utf8(read->Bytes_0)
    &&& unix_lines(decode_utf8(read->Bytes_0), decode_utf8(read->Bytes_0).len() as int)
        == files[file_id].text->0
}

proof fn lemma_source_digests(
    files: Map<FileId, SourceFileModel>,
    ids: Seq<FileId>,
    reads: Seq<DiskReadModel>,
    count: int,
)
    requires
        0 <= count <= ids.len(),
        ids.len() == reads.len(),
    ensures
        source_digests(files, ids, reads, count) is Ok <==> forall|i: int|
            0 <= i < count ==> is_as_known(files, #[trigger] ids[i], reads[i]),
        source_digests(files, ids, reads, count) matches Ok(digests) ==> {
            &&& forall|i: int| 0 <= i < count ==> digests.contains_key(#[trigger] ids[i])
            &&& forall|id: FileId| #[trigger]
                digests.contains_key(id) ==> exists|i: int|
                    0 <= i < count && #[trigger] ids[i] == id && digests[id] == digest_of(
                        reads[i]->Bytes_0,
                    )
        },
    decreases count,
{
    if count > 0 {
        lemma_source_digests(files, ids, reads, count - 1);
        let id = ids[count - 1];
        assert(source_digest(files, id, reads[count - 1]) is Ok <==> is_as_known(
            files,
            id,
            reads[count - 1],
        ));
        if source_digests(files, ids, reads, count) is Ok {
            let before = source_digests(files, ids, reads, count - 1)->Ok_0;
            let digests = source_digests(files, ids, reads, count)->Ok_0;
            assert forall|other: FileId| #[trigger] digests.contains_key(other) implies exists|
                i: int,
            |
                0 <= i < count && #[trigger] ids[i] == other && digests[other] == digest_of(
                    reads[i]->Bytes_0,
                ) by {
                if other != id {
                    assert(before.contains_key(other));
                    let i = choose|i: int|
                        0 <= i < count - 1 && #[trigger] ids[i] == other && before[other]
                            == digest_of(reads[i]->Bytes_0);
                    assert(ids[i] == other);
                } else {
                    assert(ids[count - 1] == other);
                }
            }
        }
    }
}

/// Source files are validated exactly where each of them is on disk as it is known. The digests are
/// then those of what was read, line endings and all, of each of them and of no other file.
pub proof fn law_sources_are_validated_against_the_disk(
    files: Map<FileId, SourceFileModel>,
    ids: Seq<FileId>,
    reads: Seq<DiskReadModel>,
)
    requires
        ids.len() == reads.len(),
    ensures
        source_digests(files, ids, reads, ids.len() as int) is Ok <==> forall|i: int|
            0 <= i < ids.len() ==> is_as_known(files, #[trigger] ids[i], reads[i]),
        source_digests(files, ids, reads, ids.len() as int) matches Ok(digests) ==> {
            &&& forall|id: FileId| #[trigger] digests.contains_key(id) <==> ids.contains(id)
            &&& ids.no_duplicates() ==> forall|i: int|
                0 <= i < ids.len() ==> digests[#[trigger] ids[i]] == digest_of(reads[i]->Bytes_0)
        },
{
    let count = ids.len() as int;
    lemma_source_digests(files, ids, reads, count);
    if source_digests(files, ids, reads, count) is Ok {
        let digests = source_digests(files, ids, reads, count)->Ok_0;
        assert forall|id: FileId| #[trigger] digests.contains_key(id) <==> ids.contains(id) by {
            if ids.contains(id) {
                let i = choose|i: int| 0 <= i < ids.len() && ids[i] == id;
                assert(digests.contains_key(ids[i]));
            }
        }
        if ids.no_duplicates() {
            assert forall|i: int| 0 <= i < ids.len() implies digests[#[trigger] ids[i]]
                == digest_of(reads[i]->Bytes_0) by {
                assert(digests.contains_key(ids[i]));
                let j = choose|j: int|
                    0 <= j < count && #[trigger] ids[j] == ids[i] && digests[ids[i]] == digest_of(
                        reads[j]->Bytes_0,
                    );
                assert(j == i);
            }
        }
    }
}

/// Whether a source file can be watched: it lies on disk, in a directory.
pub open spec fn is_in_directory(location: SourceLocationModel) -> bool {
    location.disk is Some && parent_of(location.disk->0.path) is Some
}

proof fn lemma_source_roots(locations: Seq<SourceLocationModel>, count: int)
    requires
        0 <= count <= locations.len(),
    ensures
        source_roots(locations, count) is Ok <==> forall|i: int|
            0 <= i < count ==> is_in_directory(#[trigger] locations[i]),
        source_roots(locations, count) matches Ok(roots) ==> forall|path: PathModel| #[trigger]
            roots.contains_key(path) <==> exists|i: int|
                0 <= i < count && parent_of((#[trigger] locations[i]).disk->0.path) == Some(path),
    decreases count,
{
    if count > 0 {
        lemma_source_roots(locations, count - 1);
        let last = locations[count - 1];
        if source_roots(locations, count) is Ok {
            let before = source_roots(locations, count - 1)->Ok_0;
            let roots = source_roots(locations, count)->Ok_0;
            assert forall|path: PathModel| #[trigger] roots.contains_key(path) <==> exists|i: int|
                0 <= i < count && parent_of((#[trigger] locations[i]).disk->0.path) == Some(
                    path,
                ) by {
                if before.contains_key(path) {
                    let i = choose|i: int|
                        0 <= i < count - 1 && parent_of((#[trigger] locations[i]).disk->0.path)
                            == Some(path);
                    assert(parent_of(locations[i].disk->0.path) == Some(path));
                }
                if parent_of(last.disk->0.path) == Some(path) {
                    assert(parent_of(locations[count - 1].disk->0.path) == Some(path));
                }
            }
        } else if source_roots(locations, count - 1) is Ok {
            assert(!is_in_directory(locations[count - 1]));
        }
    }
}

/// The directories of all source files are watched, and no others. Where one of the files has no
/// directory on disk, that is an error.
pub proof fn law_directories_of_sources_are_watched(locations: Seq<SourceLocationModel>)
    ensures
        source_roots(locations, locations.len() as int) is Ok <==> forall|i: int|
            0 <= i < locations.len() ==> is_in_directory(#[trigger] locations[i]),
        source_roots(locations, locations.len() as int) matches Ok(roots) ==> forall|
            path: PathModel,
        | #[trigger]
            roots.contains_key(path) <==> exists|i: int|
                0 <= i < locations.len() && parent_of((#[trigger] locations[i]).disk->0.path)
                    == Some(path),
{
    lemma_source_roots(locations, locations.len() as int);
}

proof fn lemma_moved(inputs: Seq<ProjectInputModel>, now: Seq<Option<Seq<u8>>>, count: int)
    requires
        0 <= count <= inputs.len(),
    ensures
        moved_input(inputs, now, count) is None <==> forall|i: int|
            0 <= i < count ==> now[i] == (#[trigger] inputs[i]).bytes,
    decreases count,
{
    if count > 0 {
        lemma_moved(inputs, now, count - 1);
        if moved_input(inputs, now, count - 1) is None && now[count - 1] != inputs[count
            - 1].bytes {
            assert(now[count - 1] != inputs[count - 1].bytes);
        }
    }
}

/// Whether a workspace is on disk as its project model knows it: the files that this was made from
/// hold what they held, or are still missing, and so does the lock file of a workspace of cargo.
pub open spec fn is_unmoved(workspace: WorkspaceFactsModel, now: ModelOnDiskModel) -> bool {
    &&& forall|i: int|
        0 <= i < workspace.project_inputs.len() ==> now.project_inputs[i] == (
        #[trigger] workspace.project_inputs[i]).bytes
    &&& workspace.packages is Some ==> now.lockfile == workspace.lockfile
}

proof fn lemma_model(
    workspaces: Seq<WorkspaceFactsModel>,
    now: Seq<ModelOnDiskModel>,
    count: int,
)
    requires
        0 <= count <= workspaces.len(),
    ensures
        model_validated(workspaces, now, count) is None <==> forall|w: int|
            0 <= w < count ==> is_unmoved(#[trigger] workspaces[w], now[w]),
    decreases count,
{
    if count > 0 {
        lemma_model(workspaces, now, count - 1);
        let last = workspaces[count - 1];
        lemma_moved(
            last.project_inputs,
            now[count - 1].project_inputs,
            last.project_inputs.len() as int,
        );
        assert(crate::disk::workspace_validated(last, now[count - 1]) is None <==> is_unmoved(
            last,
            now[count - 1],
        ));
    }
}

/// A project model is valid exactly where every workspace is on disk as the model knows it.
pub proof fn law_models_are_validated_against_the_disk(
    workspaces: Seq<WorkspaceFactsModel>,
    now: Seq<ModelOnDiskModel>,
)
    requires
        workspaces.len() == now.len(),
    ensures
        model_validated(workspaces, now, workspaces.len() as int) is None <==> forall|w: int|
            0 <= w < workspaces.len() ==> is_unmoved(#[trigger] workspaces[w], now[w]),
{
    lemma_model(workspaces, now, workspaces.len() as int);
}

} // verus!
