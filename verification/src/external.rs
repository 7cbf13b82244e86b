//! Inputs of a snapshot that lie outside of the workspace.

use vstd::prelude::*;
use vstd::string::*;

use crate::error::{GraphError, GraphErrorModel, failure, outcome};
use crate::order::{Key, Place};
use crate::paths::{
    Component, ComponentModel, FsPath, PathModel, join_paths, joined, nonempty_parent, parent,
    parent_of, watchable_parent,
};
use crate::plain::Plain;
use crate::sorting::{
    Ranked, Repeatable, drop_repeats, stable_sort, stable_sorted, without_repeats,
};
use crate::table::{Table, lemma_ordered_lists, ordered};
use crate::text::{characters, same_text};

verus! {

/// A file or directory outside of the workspace that a snapshot depends on.
#[derive(Debug, Clone, PartialEq, Eq)]
pub struct ExternalGraphInput {
    /// What the input is.
    pub identity: String,
    /// Where the input is.
    pub root: Vec<Component>,
    /// The bytes of the path in the encoding of the platform.
    pub root_bytes: Vec<u8>,
    /// Whether the input may be missing.
    pub optional: bool,
}

/// The content of a [`ExternalGraphInput`].
pub struct ExternalGraphInputModel {
    pub identity: Seq<char>,
    pub root: Seq<ComponentModel>,
    pub root_bytes: Seq<u8>,
    pub optional: bool,
}

impl DeepView for ExternalGraphInput {
    type V = ExternalGraphInputModel;

    open spec fn deep_view(&self) -> ExternalGraphInputModel {
        ExternalGraphInputModel {
            identity: self.identity.deep_view(),
            root: self.root.deep_view(),
            root_bytes: self.root_bytes.deep_view(),
            optional: self.optional.deep_view(),
        }
    }
}

impl Plain for ExternalGraphInput {
    fn duplicate(&self) -> (copy: Self) {
        ExternalGraphInput {
            identity: self.identity.duplicate(),
            root: self.root.duplicate(),
            root_bytes: self.root_bytes.duplicate(),
            optional: self.optional.duplicate(),
        }
    }

    fn same(&self, other: &Self) -> (equal: bool) {
        self.identity.same(&other.identity)
            && self.root.same(&other.root)
            && self.root_bytes.same(&other.root_bytes)
            && self.optional.same(&other.optional)
    }
}

/// Inputs are ordered by identity, path and whether they may be missing.
impl Ranked for ExternalGraphInput {
    type Rank = ((String, Vec<Component>), bool);

    open spec fn rank(value: ExternalGraphInputModel) -> ((Seq<char>, Seq<ComponentModel>), bool) {
        ((value.identity, value.root), value.optional)
    }

    fn place_by_rank(&self, other: &Self) -> (place: Place) {
        match self.identity.place(&other.identity) {
            Place::Same => match self.root.place(&other.root) {
                Place::Same => self.optional.place(&other.optional),
                decided => decided,
            },
            decided => decided,
        }
    }
}

/// An input repeats another one with the same identity and path that may be missing as well.
impl Repeatable for ExternalGraphInput {
    open spec fn repeats(kept: ExternalGraphInputModel, next: ExternalGraphInputModel) -> bool {
        kept.identity == next.identity && kept.root == next.root && kept.optional == next.optional
    }

    fn is_repeated_by(&self, next: &Self) -> (repeated: bool) {
        self.identity.same(&next.identity) && self.root.same(&next.root) && self.optional
            == next.optional
    }
}

/// A path with its bytes in the encoding of the platform and its text.
#[derive(Debug, Clone, PartialEq, Eq)]
pub struct LocatedPath {
    pub path: Vec<Component>,
    pub bytes: Vec<u8>,
    pub text: String,
}

/// The content of a [`LocatedPath`].
pub struct LocatedPathModel {
    pub path: Seq<ComponentModel>,
    pub bytes: Seq<u8>,
    pub text: Seq<char>,
}

impl DeepView for LocatedPath {
    type V = LocatedPathModel;

    open spec fn deep_view(&self) -> LocatedPathModel {
        LocatedPathModel {
            path: self.path.deep_view(),
            bytes: self.bytes.deep_view(),
            text: self.text.deep_view(),
        }
    }
}

impl Plain for LocatedPath {
    fn duplicate(&self) -> (copy: Self) {
        LocatedPath {
            path: self.path.duplicate(),
            bytes: self.bytes.duplicate(),
            text: self.text.duplicate(),
        }
    }

    fn same(&self, other: &Self) -> (equal: bool) {
        self.path.same(&other.path)
            && self.bytes.same(&other.bytes)
            && self.text.same(&other.text)
    }
}

/// A package that a workspace depends on.
#[derive(Debug, Clone, PartialEq, Eq)]
pub struct PackageInput {
    pub id: String,
    pub manifest: String,
    /// The directory of the manifest.
    pub directory: LocatedPath,
    pub is_local: bool,
    pub is_member: bool,
}

/// The content of a [`PackageInput`].
pub struct PackageInputModel {
    pub id: Seq<char>,
    pub manifest: Seq<char>,
    pub directory: LocatedPathModel,
    pub is_local: bool,
    pub is_member: bool,
}

impl DeepView for PackageInput {
    type V = PackageInputModel;

    open spec fn deep_view(&self) -> PackageInputModel {
        PackageInputModel {
            id: self.id.deep_view(),
            manifest: self.manifest.deep_view(),
            directory: self.directory.deep_view(),
            is_local: self.is_local.deep_view(),
            is_member: self.is_member.deep_view(),
        }
    }
}

impl Plain for PackageInput {
    fn duplicate(&self) -> (copy: Self) {
        PackageInput {
            id: self.id.duplicate(),
            manifest: self.manifest.duplicate(),
            directory: self.directory.duplicate(),
            is_local: self.is_local.duplicate(),
            is_member: self.is_member.duplicate(),
        }
    }

    fn same(&self, other: &Self) -> (equal: bool) {
        self.id.same(&other.id)
            && self.manifest.same(&other.manifest)
            && self.directory.same(&other.directory)
            && self.is_local.same(&other.is_local)
            && self.is_member.same(&other.is_member)
    }
}

/// The paths outside of the workspace that the project model knows.
#[derive(Debug, Clone, PartialEq, Eq)]
pub struct WorkspaceInputs {
    pub packages: Vec<PackageInput>,
    pub project_inputs: Vec<LocatedPath>,
    pub rustc: LocatedPath,
    pub cargo: Option<LocatedPath>,
    pub rust_lib_src: Option<LocatedPath>,
    /// The macro server of the sysroot.
    pub sysroot_server: Option<LocatedPath>,
}

/// The content of a [`WorkspaceInputs`].
pub struct WorkspaceInputsModel {
    pub packages: Seq<PackageInputModel>,
    pub project_inputs: Seq<LocatedPathModel>,
    pub rustc: LocatedPathModel,
    pub cargo: Option<LocatedPathModel>,
    pub rust_lib_src: Option<LocatedPathModel>,
    pub sysroot_server: Option<LocatedPathModel>,
}

impl DeepView for WorkspaceInputs {
    type V = WorkspaceInputsModel;

    open spec fn deep_view(&self) -> WorkspaceInputsModel {
        WorkspaceInputsModel {
            packages: self.packages.deep_view(),
            project_inputs: self.project_inputs.deep_view(),
            rustc: self.rustc.deep_view(),
            cargo: self.cargo.deep_view(),
            rust_lib_src: self.rust_lib_src.deep_view(),
            sysroot_server: self.sysroot_server.deep_view(),
        }
    }
}

impl Plain for WorkspaceInputs {
    fn duplicate(&self) -> (copy: Self) {
        WorkspaceInputs {
            packages: self.packages.duplicate(),
            project_inputs: self.project_inputs.duplicate(),
            rustc: self.rustc.duplicate(),
            cargo: self.cargo.duplicate(),
            rust_lib_src: self.rust_lib_src.duplicate(),
            sysroot_server: self.sysroot_server.duplicate(),
        }
    }

    fn same(&self, other: &Self) -> (equal: bool) {
        self.packages.same(&other.packages)
            && self.project_inputs.same(&other.project_inputs)
            && self.rustc.same(&other.rustc)
            && self.cargo.same(&other.cargo)
            && self.rust_lib_src.same(&other.rust_lib_src)
            && self.sysroot_server.same(&other.sysroot_server)
    }
}

/// An input with a label in front of the text of its path.
pub open spec fn labelled_input(
    label: Seq<char>,
    located: LocatedPathModel,
    optional: bool,
) -> ExternalGraphInputModel {
    ExternalGraphInputModel {
        identity: label + located.text,
        root: located.path,
        root_bytes: located.bytes,
        optional,
    }
}

fn label_input(label: &str, located: &LocatedPath, optional: bool) -> (input: ExternalGraphInput)
    ensures
        input.deep_view() == labelled_input(label@, located.deep_view(), optional),
{
    let mut identity = label.to_owned();
    identity.append(located.text.as_str());
    ExternalGraphInput {
        identity,
        root: located.path.duplicate(),
        root_bytes: located.bytes.duplicate(),
        optional,
    }
}

/// The input of a package: its directory.
pub open spec fn package_input(package: PackageInputModel) -> ExternalGraphInputModel {
    ExternalGraphInputModel {
        identity: "path-package="@ + package.id + ":"@ + package.manifest,
        root: package.directory.path,
        root_bytes: package.directory.bytes,
        optional: false,
    }
}

/// The inputs of the first packages that are local and no members.
pub open spec fn package_inputs(packages: Seq<PackageInputModel>, count: int) -> Seq<
    ExternalGraphInputModel,
>
    decreases count,
{
    if count <= 0 {
        Seq::empty()
    } else {
        let inputs = package_inputs(packages, count - 1);
        if packages[count - 1].is_local && !packages[count - 1].is_member {
            inputs.push(package_input(packages[count - 1]))
        } else {
            inputs
        }
    }
}

/// The inputs of the packages of the first workspaces.
pub open spec fn all_package_inputs(workspaces: Seq<WorkspaceInputsModel>, count: int) -> Seq<
    ExternalGraphInputModel,
>
    decreases count,
{
    if count <= 0 {
        Seq::empty()
    } else {
        let packages = workspaces[count - 1].packages;
        all_package_inputs(workspaces, count - 1) + package_inputs(packages, packages.len() as int)
    }
}

/// The inputs of the files that a project model was made from, which may be missing.
pub open spec fn project_inputs(located: Seq<LocatedPathModel>) -> Seq<ExternalGraphInputModel> {
    Seq::new(located.len(), |i: int| labelled_input("project-input="@, located[i], true))
}

/// The input of a path, where there is one.
pub open spec fn optional_input(label: Seq<char>, located: Option<LocatedPathModel>) -> Seq<
    ExternalGraphInputModel,
> {
    match located {
        Some(located) => seq![labelled_input(label, located, false)],
        None => Seq::empty(),
    }
}

/// The inputs of a workspace besides its packages: the files that the project model was made from,
/// the compiler, cargo, the sources of the standard library and the macro server.
pub open spec fn workspace_inputs(
    workspace: WorkspaceInputsModel,
    server: Option<LocatedPathModel>,
) -> Seq<ExternalGraphInputModel> {
    project_inputs(workspace.project_inputs).push(
        labelled_input("rustc="@, workspace.rustc, false),
    ) + optional_input("cargo="@, workspace.cargo) + optional_input(
        "rust-lib-src="@,
        workspace.rust_lib_src,
    ) + optional_input(
        "proc-macro-server="@,
        match server {
            Some(server) => Some(server),
            None => workspace.sysroot_server,
        },
    )
}

/// The inputs of the first workspaces besides their packages.
pub open spec fn all_workspace_inputs(
    workspaces: Seq<WorkspaceInputsModel>,
    server: Option<LocatedPathModel>,
    count: int,
) -> Seq<ExternalGraphInputModel>
    decreases count,
{
    if count <= 0 {
        Seq::empty()
    } else {
        all_workspace_inputs(workspaces, server, count - 1) + workspace_inputs(
            workspaces[count - 1],
            server,
        )
    }
}

/// The external inputs of workspaces, in order and without repetitions.
pub open spec fn inputs_of(
    workspaces: Seq<WorkspaceInputsModel>,
    server: Option<LocatedPathModel>,
) -> Seq<ExternalGraphInputModel> {
    without_repeats::<ExternalGraphInput>(
        stable_sorted::<ExternalGraphInput>(
            all_package_inputs(workspaces, workspaces.len() as int) + all_workspace_inputs(
                workspaces,
                server,
                workspaces.len() as int,
            ),
        ),
    )
}

fn add_packages(inputs: &mut Vec<ExternalGraphInput>, packages: &Vec<PackageInput>)
    ensures
        final(inputs).deep_view() == old(inputs).deep_view() + package_inputs(
            packages.deep_view(),
            packages.deep_view().len() as int,
        ),
{
    let ghost start = inputs.deep_view();
    let ghost all = packages.deep_view();
    let mut index: usize = 0;
    assert(inputs.deep_view() =~= start + package_inputs(all, 0));
    while index < packages.len()
        invariant
            index <= packages.len(),
            all == packages.deep_view(),
            inputs.deep_view() == start + package_inputs(all, index as int),
        decreases packages.len() - index,
    {
        let package = &packages[index];
        assert(all[index as int] == package.deep_view());
        if package.is_local && !package.is_member {
            let ghost before = inputs.deep_view();
            let mut identity = "path-package=".to_owned();
            identity.append(package.id.as_str());
            identity.append(":");
            identity.append(package.manifest.as_str());
            let input = ExternalGraphInput {
                identity,
                root: package.directory.path.duplicate(),
                root_bytes: package.directory.bytes.duplicate(),
                optional: false,
            };
            let ghost added = input.deep_view();
            inputs.push(input);
            assert(inputs.deep_view() =~= before.push(added));
        }
        index += 1;
        assert(inputs.deep_view() =~= start + package_inputs(all, index as int));
    }
}

fn add_project_inputs(inputs: &mut Vec<ExternalGraphInput>, located: &Vec<LocatedPath>)
    ensures
        final(inputs).deep_view() == old(inputs).deep_view() + project_inputs(located.deep_view()),
{
    let ghost start = inputs.deep_view();
    let ghost all = located.deep_view();
    let ghost added = project_inputs(all);
    let mut index: usize = 0;
    assert(inputs.deep_view() =~= start + added.take(0));
    while index < located.len()
        invariant
            index <= located.len(),
            all == located.deep_view(),
            added == project_inputs(all),
            inputs.deep_view() == start + added.take(index as int),
        decreases located.len() - index,
    {
        let ghost before = inputs.deep_view();
        let input = label_input("project-input=", &located[index], true);
        let ghost next = input.deep_view();
        inputs.push(input);
        proof {
            assert(all[index as int] == located@[index as int].deep_view());
            assert(next == added[index as int]);
            assert(inputs.deep_view() =~= before.push(next));
            assert(inputs.deep_view() =~= start + added.take(index + 1));
        }
        index += 1;
    }
    assert(added.take(index as int) =~= added);
}

fn add_optional(inputs: &mut Vec<ExternalGraphInput>, label: &str, located: &Option<LocatedPath>)
    ensures
        final(inputs).deep_view() == old(inputs).deep_view() + optional_input(
            label@,
            located.deep_view(),
        ),
{
    let ghost start = inputs.deep_view();
    match located {
        Some(located) => {
            inputs.push(label_input(label, located, false));
        },
        None => {},
    }
    assert(inputs.deep_view() =~= start + optional_input(label@, located.deep_view()));
}

fn add_workspace(
    inputs: &mut Vec<ExternalGraphInput>,
    workspace: &WorkspaceInputs,
    server: &Option<LocatedPath>,
)
    ensures
        final(inputs).deep_view() == old(inputs).deep_view() + workspace_inputs(
            workspace.deep_view(),
            server.deep_view(),
        ),
{
    let ghost start = inputs.deep_view();
    add_project_inputs(inputs, &workspace.project_inputs);
    let ghost before = inputs.deep_view();
    let rustc = label_input("rustc=", &workspace.rustc, false);
    let ghost added = rustc.deep_view();
    inputs.push(rustc);
    assert(inputs.deep_view() =~= before.push(added));
    add_optional(inputs, "cargo=", &workspace.cargo);
    add_optional(inputs, "rust-lib-src=", &workspace.rust_lib_src);
    match server {
        Some(_) => add_optional(inputs, "proc-macro-server=", server),
        None => add_optional(inputs, "proc-macro-server=", &workspace.sysroot_server),
    }
    assert(inputs.deep_view() =~= start + workspace_inputs(
        workspace.deep_view(),
        server.deep_view(),
    ));
}

/// Lists the external inputs of workspaces, in order and without repetitions.
pub fn external_graph_inputs(workspaces: &Vec<WorkspaceInputs>, server: &Option<LocatedPath>) -> (inputs:
    Vec<ExternalGraphInput>)
    ensures
        inputs.deep_view() == inputs_of(workspaces.deep_view(), server.deep_view()),
{
    let ghost all = workspaces.deep_view();
    let ghost s = server.deep_view();
    let mut inputs: Vec<ExternalGraphInput> = Vec::new();
    let mut index: usize = 0;
    assert(inputs.deep_view() =~= all_package_inputs(all, 0));
    while index < workspaces.len()
        invariant
            index <= workspaces.len(),
            all == workspaces.deep_view(),
            inputs.deep_view() == all_package_inputs(all, index as int),
        decreases workspaces.len() - index,
    {
        assert(all[index as int] == workspaces@[index as int].deep_view());
        add_packages(&mut inputs, &workspaces[index].packages);
        index += 1;
    }
    let ghost packages = inputs.deep_view();
    let mut next: usize = 0;
    assert(inputs.deep_view() =~= packages + all_workspace_inputs(all, s, 0));
    while next < workspaces.len()
        invariant
            next <= workspaces.len(),
            all == workspaces.deep_view(),
            s == server.deep_view(),
            inputs.deep_view() == packages + all_workspace_inputs(all, s, next as int),
        decreases workspaces.len() - next,
    {
        assert(all[next as int] == workspaces@[next as int].deep_view());
        add_workspace(&mut inputs, &workspaces[next], server);
        next += 1;
        assert(inputs.deep_view() =~= packages + all_workspace_inputs(all, s, next as int));
    }
    stable_sort(&mut inputs);
    drop_repeats(&mut inputs);
    inputs
}

/// Where a tool is, or where to search for it.
#[derive(Debug, Clone, PartialEq, Eq)]
pub enum ToolPlace {
    At(Vec<Component>),
    /// A search path.
    Search(String),
    /// The search path of the process.
    SearchProcess,
}

/// The content of a [`ToolPlace`].
pub enum ToolPlaceModel {
    At(Seq<ComponentModel>),
    Search(Seq<char>),
    SearchProcess,
}

impl DeepView for ToolPlace {
    type V = ToolPlaceModel;

    open spec fn deep_view(&self) -> ToolPlaceModel {
        match self {
            ToolPlace::At(path) => ToolPlaceModel::At(path.deep_view()),
            ToolPlace::Search(search) => ToolPlaceModel::Search(search@),
            ToolPlace::SearchProcess => ToolPlaceModel::SearchProcess,
        }
    }
}

/// A character with capital ASCII letters in place of small ones.
pub open spec fn capital(c: char) -> u32 {
    if 'a' <= c <= 'z' {
        (c as u32 - 32) as u32
    } else {
        c as u32
    }
}

/// Whether two texts are the same but for the case of ASCII letters.
pub open spec fn alike(left: Seq<char>, right: Seq<char>) -> bool {
    &&& left.len() == right.len()
    &&& forall|i: int| 0 <= i < left.len() ==> capital(#[trigger] left[i]) == capital(right[i])
}

fn to_capital(c: char) -> (code: u32)
    ensures
        code == capital(c),
{
    if 'a' <= c && c <= 'z' {
        c as u32 - 32
    } else {
        c as u32
    }
}

fn are_alike(left: &str, right: &str) -> (equal: bool)
    ensures
        equal == alike(left@, right@),
{
    let first = characters(left);
    let second = characters(right);
    if first.len() != second.len() {
        return false;
    }
    let mut index: usize = 0;
    while index < first.len()
        invariant
            index <= first.len(),
            first.len() == second.len(),
            first@ == left@,
            second@ == right@,
            forall|i: int| 0 <= i < index ==> capital(#[trigger] left@[i]) == capital(right@[i]),
        decreases first.len() - index,
    {
        if to_capital(first[index]) != to_capital(second[index]) {
            assert(capital(left@[index as int]) != capital(right@[index as int]));
            return false;
        }
        index += 1;
    }
    true
}

/// Whether a variable is the search path. Some systems tell variables apart by case, and others
/// do not.
pub open spec fn is_search_path(name: Seq<char>, ignore_case: bool) -> bool {
    if ignore_case {
        alike(name, "PATH"@)
    } else {
        name == "PATH"@
    }
}

/// The first search path of an environment.
pub open spec fn search_path(environment: Seq<(Seq<char>, Seq<char>)>, ignore_case: bool) -> Option<
    Seq<char>,
>
    decreases environment.len(),
{
    if environment.len() == 0 {
        None
    } else if is_search_path(environment[0].0, ignore_case) {
        Some(environment[0].1)
    } else {
        search_path(environment.drop_first(), ignore_case)
    }
}

fn find_search_path(environment: &Vec<(String, String)>, ignore_case: bool) -> (value: Option<String>)
    ensures
        value.deep_view() == search_path(environment.deep_view(), ignore_case),
{
    let ghost all = environment.deep_view();
    let mut index: usize = 0;
    assert(all.skip(0) =~= all);
    while index < environment.len()
        invariant
            index <= environment.len(),
            all == environment.deep_view(),
            search_path(all, ignore_case) == search_path(all.skip(index as int), ignore_case),
        decreases environment.len() - index,
    {
        assert(all.skip(index as int)[0] == environment@[index as int].deep_view());
        let name = environment[index].0.as_str();
        let found = if ignore_case {
            are_alike(name, "PATH")
        } else {
            same_text(name, "PATH")
        };
        if found {
            return Some(environment[index].1.clone());
        }
        assert(all.skip(index as int).drop_first() =~= all.skip(index + 1));
        index += 1;
    }
    None
}

/// Where a tool is: an absolute path stands for itself, a path with directories is below the
/// workspace, and a bare name is searched for, on the search path of the environment or else on
/// that of the process.
pub open spec fn tool_place(
    tool: LocatedPathModel,
    is_absolute: bool,
    workspace_root: PathModel,
    environment: Option<Seq<(Seq<char>, Seq<char>)>>,
    ignore_case: bool,
    process_has_path: bool,
) -> Result<ToolPlaceModel, GraphErrorModel> {
    let own = match environment {
        Some(environment) => search_path(environment, ignore_case),
        None => None,
    };
    if tool.bytes.len() == 0 {
        Err(GraphErrorModel::Failed("external graph tool path is empty"@))
    } else if is_absolute {
        Ok(ToolPlaceModel::At(tool.path))
    } else if watchable_parent(tool.path) is Some {
        Ok(ToolPlaceModel::At(joined(workspace_root, tool.path)))
    } else {
        match own {
            Some(search) => Ok(ToolPlaceModel::Search(search)),
            None => if process_has_path {
                Ok(ToolPlaceModel::SearchProcess)
            } else {
                Err(
                    GraphErrorModel::Failed(
                        "external graph tool `"@ + tool.text
                            + "` is unavailable because PATH is unset"@,
                    ),
                )
            },
        }
    }
}

/// Decides where a tool is, or where to search for it.
pub fn resolve_external_tool_path(
    tool: &LocatedPath,
    is_absolute: bool,
    workspace_root: &FsPath,
    environment: &Option<Vec<(String, String)>>,
    ignore_case: bool,
    process_has_path: bool,
) -> (result: Result<ToolPlace, GraphError>)
    ensures
        outcome(result) == tool_place(
            tool.deep_view(),
            is_absolute,
            workspace_root.deep_view(),
            environment.deep_view(),
            ignore_case,
            process_has_path,
        ),
{
    assert(tool.deep_view().bytes.len() == tool.bytes.len());
    if tool.bytes.len() == 0 {
        return Err(failure("external graph tool path is empty"));
    }
    if is_absolute {
        return Ok(ToolPlace::At(tool.path.duplicate()));
    }
    if nonempty_parent(&tool.path).is_some() {
        return Ok(ToolPlace::At(join_paths(workspace_root, &tool.path)));
    }
    let own: Option<String> = match environment {
        Some(environment) => find_search_path(environment, ignore_case),
        None => None,
    };
    match own {
        Some(search) => Ok(ToolPlace::Search(search)),
        None => if process_has_path {
            Ok(ToolPlace::SearchProcess)
        } else {
            let mut message = "external graph tool `".to_owned();
            message.append(tool.text.as_str());
            message.append("` is unavailable because PATH is unset");
            Err(GraphError::Failed(message))
        },
    }
}

/// A directory of a search path, and whether it is absolute.
pub open spec fn candidate(
    directory: PathModel,
    is_absolute: bool,
    workspace_root: PathModel,
    tool: PathModel,
) -> PathModel {
    joined(
        if directory.len() == 0 {
            workspace_root
        } else if is_absolute {
            directory
        } else {
            joined(workspace_root, directory)
        },
        tool,
    )
}

/// The path of a tool in a directory of a search path. Relative directories are below the
/// workspace, and the empty one is the workspace.
pub fn tool_candidate(
    directory: &FsPath,
    is_absolute: bool,
    workspace_root: &FsPath,
    tool: &FsPath,
) -> (path: FsPath)
    ensures
        path.deep_view() == candidate(
            directory.deep_view(),
            is_absolute,
            workspace_root.deep_view(),
            tool.deep_view(),
        ),
{
    assert(directory.deep_view().len() == directory.len());
    if directory.len() == 0 {
        join_paths(workspace_root, tool)
    } else if is_absolute {
        join_paths(directory, tool)
    } else {
        join_paths(&join_paths(workspace_root, directory), tool)
    }
}

/// The first candidate that is a file: as it stands, or with the extension of executables.
pub open spec fn found_tool(probes: Seq<ToolProbeModel>) -> Option<PathModel>
    decreases probes.len(),
{
    if probes.len() == 0 {
        None
    } else {
        match probed(probes[0]) {
            Some(path) => Some(path),
            None => found_tool(probes.drop_first()),
        }
    }
}

/// What is on disk at a candidate.
#[derive(Debug, Clone, PartialEq, Eq)]
pub struct ToolProbe {
    pub path: Vec<Component>,
    pub is_file: bool,
    /// The candidate with the extension of executables, where they have one, and whether it is a
    /// file.
    pub extended: Option<(Vec<Component>, bool)>,
}

/// The content of a [`ToolProbe`].
pub struct ToolProbeModel {
    pub path: Seq<ComponentModel>,
    pub is_file: bool,
    pub extended: Option<(Seq<ComponentModel>, bool)>,
}

impl DeepView for ToolProbe {
    type V = ToolProbeModel;

    open spec fn deep_view(&self) -> ToolProbeModel {
        ToolProbeModel {
            path: self.path.deep_view(),
            is_file: self.is_file.deep_view(),
            extended: self.extended.deep_view(),
        }
    }
}

impl Plain for ToolProbe {
    fn duplicate(&self) -> (copy: Self) {
        ToolProbe {
            path: self.path.duplicate(),
            is_file: self.is_file.duplicate(),
            extended: self.extended.duplicate(),
        }
    }

    fn same(&self, other: &Self) -> (equal: bool) {
        self.path.same(&other.path)
            && self.is_file.same(&other.is_file)
            && self.extended.same(&other.extended)
    }
}

/// The file that a candidate stands for, if there is one.
pub open spec fn probed(probe: ToolProbeModel) -> Option<PathModel> {
    if probe.is_file {
        Some(probe.path)
    } else {
        match probe.extended {
            Some((path, is_file)) => if is_file {
                Some(path)
            } else {
                None
            },
            None => None,
        }
    }
}

/// The file that a candidate stands for, if there is one.
pub fn probe_external_tool(probe: &ToolProbe) -> (path: Option<FsPath>)
    ensures
        path.deep_view() == probed(probe.deep_view()),
{
    if probe.is_file {
        return Some(probe.path.duplicate());
    }
    match &probe.extended {
        Some(extended) => if extended.1 {
            Some(extended.0.duplicate())
        } else {
            None
        },
        None => None,
    }
}

/// The place of a tool that was searched for.
pub open spec fn tool_found(probes: Seq<ToolProbeModel>, tool: Seq<char>) -> Result<
    PathModel,
    GraphErrorModel,
> {
    match found_tool(probes) {
        Some(path) => Ok(path),
        None => Err(
            GraphErrorModel::Failed(
                "external graph tool `"@ + tool + "` is unavailable on PATH"@,
            ),
        ),
    }
}

/// Takes the first candidate that is a file.
pub fn choose_tool(probes: &Vec<ToolProbe>, tool: &str) -> (result: Result<FsPath, GraphError>)
    ensures
        outcome(result) == tool_found(probes.deep_view(), tool@),
{
    let ghost all = probes.deep_view();
    let mut index: usize = 0;
    assert(all.skip(0) =~= all);
    while index < probes.len()
        invariant
            index <= probes.len(),
            all == probes.deep_view(),
            found_tool(all) == found_tool(all.skip(index as int)),
        decreases probes.len() - index,
    {
        assert(all.skip(index as int)[0] == probes@[index as int].deep_view());
        match probe_external_tool(&probes[index]) {
            Some(path) => {
                return Ok(path);
            },
            None => {},
        }
        assert(all.skip(index as int).drop_first() =~= all.skip(index + 1));
        index += 1;
    }
    let mut message = "external graph tool `".to_owned();
    message.append(tool);
    message.append("` is unavailable on PATH");
    Err(GraphError::Failed(message))
}

/// The paths to watch, and whether to watch what is below them as well.
pub type WatchRoots = Table<Vec<Component>, bool>;

/// Watches a path. What is below it is watched once it was asked for.
pub open spec fn with_root(roots: Map<PathModel, bool>, root: PathModel, recursive: bool) -> Map<
    PathModel,
    bool,
> {
    roots.insert(root, recursive || roots.contains_key(root) && roots[root])
}

/// Watches a path. What is below it is watched once it was asked for.
pub fn insert_watch_root(roots: &mut WatchRoots, root: FsPath, recursive: bool)
    ensures
        final(roots).deep_view() == with_root(
            old(roots).deep_view(),
            root.deep_view(),
            recursive,
        ),
{
    let prior = match roots.get(&root) {
        Some(prior) => *prior,
        None => false,
    };
    roots.insert(root, recursive || prior);
}

/// Watches a path, and its parent without what is below it.
pub open spec fn with_root_and_parent(
    roots: Map<PathModel, bool>,
    root: PathModel,
    recursive: bool,
) -> Map<PathModel, bool> {
    let watched = with_root(roots, root, recursive);
    match watchable_parent(root) {
        Some(parent) => with_root(watched, parent, false),
        None => watched,
    }
}

/// Watches a path, and its parent without what is below it.
pub fn insert_with_parent(roots: &mut WatchRoots, root: FsPath, recursive: bool)
    ensures
        final(roots).deep_view() == with_root_and_parent(
            old(roots).deep_view(),
            root.deep_view(),
            recursive,
        ),
{
    let parent = nonempty_parent(&root);
    insert_watch_root(roots, root, recursive);
    match parent {
        Some(parent) => insert_watch_root(roots, parent, false),
        None => {},
    }
}

/// The paths from a path up to where it starts.
pub open spec fn ancestors_of(path: PathModel) -> Seq<PathModel>
    decreases path.len(),
{
    match parent_of(path) {
        Some(parent) => seq![path] + ancestors_of(parent),
        None => seq![path],
    }
}

/// The paths from a path up to where it starts.
pub fn ancestors(path: &FsPath) -> (list: Vec<FsPath>)
    ensures
        list.deep_view() == ancestors_of(path.deep_view()),
    decreases path.len(),
{
    let ghost whole = path.deep_view();
    let mut list: Vec<FsPath> = Vec::new();
    list.push(path.duplicate());
    assert(list.deep_view() =~= seq![whole]);
    match parent(path) {
        Some(parent) => {
            let ghost first = list.deep_view();
            assert(parent.deep_view().len() == parent.len());
            assert(whole.len() == path.len());
            let mut rest = ancestors(&parent);
            let ghost more = rest.deep_view();
            list.append(&mut rest);
            assert(list.deep_view() =~= first + more);
        },
        None => {},
    }
    list
}

/// The first path that exists.
pub open spec fn first_existing(paths: Seq<PathModel>, exists_at: Seq<bool>) -> Option<PathModel>
    decreases paths.len(),
{
    if paths.len() == 0 || exists_at.len() == 0 {
        None
    } else if exists_at[0] {
        Some(paths[0])
    } else {
        first_existing(paths.drop_first(), exists_at.drop_first())
    }
}

/// The nearest path, from a path up to where it starts, that exists. It is given which of them do.
pub fn nearest_existing_watch_root(path: &FsPath, exists_at: &Vec<bool>) -> (nearest: Option<FsPath>)
    ensures
        nearest.deep_view() == first_existing(ancestors_of(path.deep_view()), exists_at@),
{
    let paths = ancestors(path);
    let ghost all = paths.deep_view();
    let mut index: usize = 0;
    assert(all.skip(0) =~= all);
    assert(exists_at@.skip(0) =~= exists_at@);
    while index < paths.len() && index < exists_at.len()
        invariant
            index <= paths.len(),
            index <= exists_at.len(),
            all == paths.deep_view(),
            all == ancestors_of(path.deep_view()),
            first_existing(all, exists_at@) == first_existing(
                all.skip(index as int),
                exists_at@.skip(index as int),
            ),
        decreases paths.len() - index,
    {
        assert(all.skip(index as int)[0] == paths@[index as int].deep_view());
        if exists_at[index] {
            return Some(paths[index].duplicate());
        }
        assert(all.skip(index as int).drop_first() =~= all.skip(index + 1));
        assert(exists_at@.skip(index as int).drop_first() =~= exists_at@.skip(index + 1));
        index += 1;
    }
    None
}

/// Watches the nearest path that exists in place of a missing one.
pub open spec fn with_missing(roots: Map<PathModel, bool>, nearest: Option<PathModel>) -> Map<
    PathModel,
    bool,
> {
    match nearest {
        Some(root) => with_root_and_parent(roots, root, false),
        None => roots,
    }
}

/// Watches the nearest path that exists in place of a missing one.
pub fn insert_missing_target_watch_roots(roots: &mut WatchRoots, nearest: Option<FsPath>)
    ensures
        final(roots).deep_view() == with_missing(old(roots).deep_view(), nearest.deep_view()),
{
    match nearest {
        Some(root) => insert_with_parent(roots, root, false),
        None => {},
    }
}

/// What is on disk at a path.
#[derive(Debug, Clone, Copy, PartialEq, Eq, Structural)]
pub enum DiskStatus {
    Symlink,
    Directory,
    /// A file, or anything else that is neither a directory nor a link.
    File,
    NotFound,
    /// A part of the path is no directory.
    NotADirectory,
    /// The disk could not be read.
    Failed,
}

impl DeepView for DiskStatus {
    type V = DiskStatus;

    open spec fn deep_view(&self) -> DiskStatus {
        *self
    }
}

impl Plain for DiskStatus {
    fn duplicate(&self) -> (copy: Self) {
        *self
    }

    fn same(&self, other: &Self) -> (equal: bool) {
        *self == *other
    }
}

/// Whether nothing is on disk at a path.
pub open spec fn is_absent(status: DiskStatus) -> bool {
    status is NotFound || status is NotADirectory
}

impl DiskStatus {
    /// Whether nothing is on disk.
    pub fn absent(&self) -> (absent: bool)
        ensures
            absent == is_absent(self.deep_view()),
    {
        match self {
            DiskStatus::NotFound | DiskStatus::NotADirectory => true,
            _ => false,
        }
    }
}

/// What is on disk at an external input, links followed.
#[derive(Debug, Clone, PartialEq, Eq)]
pub struct InputProbe {
    /// The text of the path.
    pub text: String,
    pub status: DiskStatus,
    /// Why nothing could be read, where that is so.
    pub error: String,
    /// The nearest path that exists, where the input is missing.
    pub nearest: Option<Vec<Component>>,
}

/// The content of a [`InputProbe`].
pub struct InputProbeModel {
    pub text: Seq<char>,
    pub status: DiskStatus,
    pub error: Seq<char>,
    pub nearest: Option<Seq<ComponentModel>>,
}

impl DeepView for InputProbe {
    type V = InputProbeModel;

    open spec fn deep_view(&self) -> InputProbeModel {
        InputProbeModel {
            text: self.text.deep_view(),
            status: self.status.deep_view(),
            error: self.error.deep_view(),
            nearest: self.nearest.deep_view(),
        }
    }
}

impl Plain for InputProbe {
    fn duplicate(&self) -> (copy: Self) {
        InputProbe {
            text: self.text.duplicate(),
            status: self.status.duplicate(),
            error: self.error.duplicate(),
            nearest: self.nearest.duplicate(),
        }
    }

    fn same(&self, other: &Self) -> (equal: bool) {
        self.text.same(&other.text)
            && self.status.same(&other.status)
            && self.error.same(&other.error)
            && self.nearest.same(&other.nearest)
    }
}

/// Watches an external input: what is below it, where it is a directory, and its parent. One that
/// may be missing, and is, is watched by the nearest path that exists.
pub open spec fn input_watched(
    roots: Map<PathModel, bool>,
    input: ExternalGraphInputModel,
    probe: InputProbeModel,
) -> Result<Map<PathModel, bool>, GraphErrorModel> {
    match probe.status {
        DiskStatus::Directory => Ok(with_root_and_parent(roots, input.root, true)),
        DiskStatus::File => Ok(with_root_and_parent(roots, input.root, false)),
        DiskStatus::Symlink => Ok(with_root_and_parent(roots, input.root, false)),
        _ => {
            if input.optional && is_absent(probe.status) {
                Ok(with_missing(roots, probe.nearest))
            } else {
                Err(
                    GraphErrorModel::Retry(
                        "external graph input "@ + probe.text + " is unavailable: "@ + probe.error
                            + "; retry the request"@,
                    ),
                )
            }
        },
    }
}

/// Watches the first external inputs.
pub open spec fn inputs_watched(
    inputs: Seq<ExternalGraphInputModel>,
    probes: Seq<InputProbeModel>,
    count: int,
) -> Result<Map<PathModel, bool>, GraphErrorModel>
    decreases count,
{
    if count <= 0 {
        Ok(Map::empty())
    } else {
        match inputs_watched(inputs, probes, count - 1) {
            Err(error) => Err(error),
            Ok(roots) => input_watched(roots, inputs[count - 1], probes[count - 1]),
        }
    }
}

/// Watches the first of the paths that links led to.
pub open spec fn links_watched(
    roots: Map<PathModel, bool>,
    links: Seq<(PathModel, bool)>,
    count: int,
) -> Map<PathModel, bool>
    decreases count,
{
    if count <= 0 {
        roots
    } else {
        with_root(links_watched(roots, links, count - 1), links[count - 1].0, links[count - 1].1)
    }
}

/// What to watch for external inputs and the paths that links in them led to.
pub open spec fn watch_roots_of(
    inputs: Seq<ExternalGraphInputModel>,
    probes: Seq<InputProbeModel>,
    links: Map<PathModel, bool>,
) -> Result<Map<PathModel, bool>, GraphErrorModel> {
    match inputs_watched(inputs, probes, inputs.len() as int) {
        Err(error) => Err(error),
        Ok(roots) => {
            let listing = ordered::<Vec<Component>, bool>(links);
            Ok(links_watched(roots, listing, listing.len() as int))
        },
    }
}

proof fn lemma_watched_error(
    inputs: Seq<ExternalGraphInputModel>,
    probes: Seq<InputProbeModel>,
    count: int,
    more: int,
)
    requires
        0 <= count <= more,
        inputs_watched(inputs, probes, count) is Err,
    ensures
        inputs_watched(inputs, probes, more) == inputs_watched(inputs, probes, count),
    decreases more - count,
{
    if count < more {
        lemma_watched_error(inputs, probes, count, more - 1);
    }
}

fn watch_input(roots: &mut WatchRoots, input: &ExternalGraphInput, probe: &InputProbe) -> (result:
    Result<(), GraphError>)
    ensures
        match input_watched(old(roots).deep_view(), input.deep_view(), probe.deep_view()) {
            Ok(expected) => result is Ok && final(roots).deep_view() == expected,
            Err(error) => result is Err && result->Err_0.deep_view() == error,
        },
{
    match &probe.status {
        DiskStatus::Directory => insert_with_parent(roots, input.root.duplicate(), true),
        DiskStatus::File | DiskStatus::Symlink => insert_with_parent(
            roots,
            input.root.duplicate(),
            false,
        ),
        _ => {
            if input.optional && probe.status.absent() {
                insert_missing_target_watch_roots(roots, probe.nearest.duplicate());
            } else {
                let mut message = "external graph input ".to_owned();
                message.append(probe.text.as_str());
                message.append(" is unavailable: ");
                message.append(probe.error.as_str());
                message.append("; retry the request");
                return Err(GraphError::Retry(message));
            }
        },
    }
    Ok(())
}

/// Decides what to watch for external inputs and the paths that links in them led to.
pub fn external_input_watch_roots(
    inputs: &Vec<ExternalGraphInput>,
    probes: &Vec<InputProbe>,
    links: &WatchRoots,
) -> (result: Result<WatchRoots, GraphError>)
    requires
        probes.len() == inputs.len(),
    ensures
        outcome(result) == watch_roots_of(
            inputs.deep_view(),
            probes.deep_view(),
            links.deep_view(),
        ),
{
    let ghost i = inputs.deep_view();
    let ghost p = probes.deep_view();
    let mut roots: WatchRoots = Table::new();
    let mut index: usize = 0;
    while index < inputs.len()
        invariant
            index <= inputs.len(),
            probes.len() == inputs.len(),
            i == inputs.deep_view(),
            p == probes.deep_view(),
            inputs_watched(i, p, index as int) == Ok::<Map<PathModel, bool>, GraphErrorModel>(
                roots.deep_view(),
            ),
        decreases inputs.len() - index,
    {
        assert(i[index as int] == inputs@[index as int].deep_view());
        assert(p[index as int] == probes@[index as int].deep_view());
        match watch_input(&mut roots, &inputs[index], &probes[index]) {
            Ok(_) => {},
            Err(error) => {
                proof {
                    lemma_watched_error(i, p, index + 1, i.len() as int);
                }
                return Err(error);
            },
        }
        index += 1;
    }
    let ghost start = roots.deep_view();
    let ghost listing = ordered::<Vec<Component>, bool>(links.deep_view());
    let count = links.len();
    let mut next: usize = 0;
    while next < count
        invariant
            next <= count,
            count == listing.len(),
            listing == ordered::<Vec<Component>, bool>(links.deep_view()),
            roots.deep_view() == links_watched(start, listing, next as int),
        decreases count - next,
    {
        insert_watch_root(&mut roots, links.key_at(next).duplicate(), *links.value_at(next));
        next += 1;
    }
    Ok(roots)
}

/// Whether an external input is there.
pub open spec fn is_present(status: DiskStatus) -> bool {
    status == DiskStatus::Directory || status == DiskStatus::File || status == DiskStatus::Symlink
}

/// Whether an external input can be watched: it is there, or may be missing and is.
pub open spec fn is_watchable(input: ExternalGraphInputModel, probe: InputProbeModel) -> bool {
    is_present(probe.status) || input.optional && (probe.status is NotFound || probe.status
        is NotADirectory)
}

/// Whether a path is watched for an external input: it is the input or its parent, where the input is
/// there, and the nearest path that exists or the parent of that, where it is missing.
pub open spec fn is_watched_for(
    input: ExternalGraphInputModel,
    probe: InputProbeModel,
    path: PathModel,
) -> bool {
    let root = if is_present(probe.status) {
        Some(input.root)
    } else {
        probe.nearest
    };
    root matches Some(root) && (path == root || watchable_parent(root) == Some(path))
}

/// Whether a path is watched for one of the first external inputs.
pub open spec fn is_watched_for_any(
    inputs: Seq<ExternalGraphInputModel>,
    probes: Seq<InputProbeModel>,
    count: int,
    path: PathModel,
) -> bool {
    exists|i: int| 0 <= i < count && is_watched_for(#[trigger] inputs[i], probes[i], path)
}

/// Whether a path is one of the first external inputs, and a directory.
pub open spec fn is_directory_input(
    inputs: Seq<ExternalGraphInputModel>,
    probes: Seq<InputProbeModel>,
    count: int,
    path: PathModel,
) -> bool {
    exists|i: int|
        0 <= i < count && (#[trigger] inputs[i]).root == path && probes[i].status
            == DiskStatus::Directory
}

/// Which paths are watched for the first external inputs, and with what is below them.
proof fn lemma_inputs_watched(
    inputs: Seq<ExternalGraphInputModel>,
    probes: Seq<InputProbeModel>,
    count: int,
)
    requires
        0 <= count <= inputs.len(),
        inputs.len() == probes.len(),
    ensures
        inputs_watched(inputs, probes, count) is Ok <==> forall|i: int|
            0 <= i < count ==> is_watchable(#[trigger] inputs[i], probes[i]),
        inputs_watched(inputs, probes, count) matches Ok(roots) ==> {
            &&& forall|path: PathModel| #[trigger]
                roots.contains_key(path) <==> is_watched_for_any(inputs, probes, count, path)
            &&& forall|path: PathModel| #[trigger]
                roots.contains_key(path) ==> (roots[path] <==> is_directory_input(
                    inputs,
                    probes,
                    count,
                    path,
                ))
        },
    decreases count,
{
    if count > 0 {
        lemma_inputs_watched(inputs, probes, count - 1);
        let last = inputs[count - 1];
        let probe = probes[count - 1];
        if inputs_watched(inputs, probes, count - 1) is Ok {
            let before = inputs_watched(inputs, probes, count - 1)->Ok_0;
            assert(inputs_watched(inputs, probes, count) == input_watched(before, last, probe));
            assert(input_watched(before, last, probe) is Ok <==> is_watchable(last, probe));
            if is_watchable(last, probe) {
                let roots = input_watched(before, last, probe)->Ok_0;
                assert forall|path: PathModel| #[trigger]
                    roots.contains_key(path) <==> is_watched_for_any(
                    inputs,
                    probes,
                    count,
                    path,
                ) by {
                    lemma_any_step(inputs, probes, count, path);
                }
                assert forall|path: PathModel| #[trigger]
                    roots.contains_key(path) implies (roots[path] <==> is_directory_input(
                    inputs,
                    probes,
                    count,
                    path,
                )) by {
                    lemma_any_step(inputs, probes, count, path);
                    assert(is_directory_input(inputs, probes, count - 1, path)
                        ==> before.contains_key(path)) by {
                        lemma_directories_watched(inputs, probes, count - 1, path);
                    }
                }
            }
        } else {
            let i = choose|i: int|
                0 <= i < count - 1 && !is_watchable(#[trigger] inputs[i], probes[i]);
            assert(!is_watchable(inputs[i], probes[i]));
        }
    }
}

proof fn lemma_any_step(
    inputs: Seq<ExternalGraphInputModel>,
    probes: Seq<InputProbeModel>,
    count: int,
    path: PathModel,
)
    requires
        0 < count <= inputs.len(),
    ensures
        is_watched_for_any(inputs, probes, count, path) <==> is_watched_for_any(
            inputs,
            probes,
            count - 1,
            path,
        ) || is_watched_for(inputs[count - 1], probes[count - 1], path),
        is_directory_input(inputs, probes, count, path) <==> is_directory_input(
            inputs,
            probes,
            count - 1,
            path,
        ) || inputs[count - 1].root == path && probes[count - 1].status == DiskStatus::Directory,
{
}

proof fn lemma_directories_watched(
    inputs: Seq<ExternalGraphInputModel>,
    probes: Seq<InputProbeModel>,
    count: int,
    path: PathModel,
)
    ensures
        is_directory_input(inputs, probes, count, path) ==> is_watched_for_any(
            inputs,
            probes,
            count,
            path,
        ),
{
    if is_directory_input(inputs, probes, count, path) {
        let i = choose|i: int|
            0 <= i < count && (#[trigger] inputs[i]).root == path && probes[i].status
                == DiskStatus::Directory;
        assert(is_watched_for(inputs[i], probes[i], path));
    }
}

proof fn lemma_links_watched(
    roots: Map<PathModel, bool>,
    links: Seq<(PathModel, bool)>,
    count: int,
)
    requires
        0 <= count <= links.len(),
    ensures
        forall|path: PathModel| #[trigger]
            links_watched(roots, links, count).contains_key(path) <==> roots.contains_key(path)
                || exists|i: int| 0 <= i < count && (#[trigger] links[i]).0 == path,
        forall|path: PathModel| #[trigger]
            links_watched(roots, links, count).contains_key(path) ==> (links_watched(
                roots,
                links,
                count,
            )[path] <==> roots.contains_key(path) && roots[path] || exists|i: int|
                0 <= i < count && (#[trigger] links[i]).0 == path && links[i].1),
    decreases count,
{
    if count > 0 {
        lemma_links_watched(roots, links, count - 1);
        let before = links_watched(roots, links, count - 1);
        let after = links_watched(roots, links, count);
        let (last, recursive) = links[count - 1];
        assert(after == with_root(before, last, recursive));
        assert forall|path: PathModel| #[trigger] after.contains_key(path) implies (after[path]
            <==> roots.contains_key(path) && roots[path] || exists|i: int|
            0 <= i < count && (#[trigger] links[i]).0 == path && links[i].1) by {
            if path == last {
                assert(links[count - 1].0 == path);
                if !before.contains_key(path) {
                    assert(!roots.contains_key(path));
                }
            } else {
                assert(before.contains_key(path));
            }
        }
        assert forall|path: PathModel| #[trigger] after.contains_key(path) <==> roots.contains_key(
            path,
        ) || exists|i: int| 0 <= i < count && (#[trigger] links[i]).0 == path by {
            if path == last {
                assert(links[count - 1].0 == path);
            }
            assert(after.contains_key(path) <==> before.contains_key(path) || path == last);
        }
    }
}

/// What is watched is told exactly where every external input is there, or may be missing and is. For
/// one that is there, it and its parent are watched, by which a replacement is noticed. For one that
/// is missing, the nearest path that exists and its parent are watched, by which it is noticed once it
/// comes. Every path that links led to is watched, and no other path is. What is below a path is
/// watched as well where the path is an external input and a directory, or where a link asks for it.
pub proof fn law_inputs_are_watched(
    inputs: Seq<ExternalGraphInputModel>,
    probes: Seq<InputProbeModel>,
    links: Map<PathModel, bool>,
)
    requires
        inputs.len() == probes.len(),
        links.dom().finite(),
    ensures
        watch_roots_of(inputs, probes, links) is Ok <==> forall|i: int|
            0 <= i < inputs.len() ==> is_watchable(#[trigger] inputs[i], probes[i]),
        watch_roots_of(inputs, probes, links) matches Ok(roots) ==> {
            &&& forall|path: PathModel| #[trigger]
                roots.contains_key(path) <==> is_watched_for_any(
                    inputs,
                    probes,
                    inputs.len() as int,
                    path,
                ) || links.contains_key(path)
            &&& forall|path: PathModel| #[trigger]
                roots.contains_key(path) ==> (roots[path] <==> is_directory_input(
                    inputs,
                    probes,
                    inputs.len() as int,
                    path,
                ) || links.contains_key(path) && links[path])
        },
{
    let count = inputs.len() as int;
    let listing = ordered::<Vec<Component>, bool>(links);
    lemma_inputs_watched(inputs, probes, count);
    if inputs_watched(inputs, probes, count) is Ok {
        let before = inputs_watched(inputs, probes, count)->Ok_0;
        let roots = links_watched(before, listing, listing.len() as int);
        lemma_links_watched(before, listing, listing.len() as int);
        assert forall|path: PathModel| #[trigger] roots.contains_key(path) implies (roots[path]
            <==> is_directory_input(inputs, probes, count, path) || links.contains_key(path)
            && links[path]) by {
            lemma_listed_key(links, path);
            lemma_directories_watched(inputs, probes, count, path);
        }
        assert forall|path: PathModel| #[trigger] roots.contains_key(path) <==> is_watched_for_any(
            inputs,
            probes,
            count,
            path,
        ) || links.contains_key(path) by {
            lemma_listed_key(links, path);
            assert(before.contains_key(path) <==> is_watched_for_any(inputs, probes, count, path));
        }
    }
}

proof fn lemma_listed_key(links: Map<PathModel, bool>, path: PathModel)
    requires
        links.dom().finite(),
    ensures
        ({
            let listing = ordered::<Vec<Component>, bool>(links);
            &&& (exists|i: int| 0 <= i < listing.len() && (#[trigger] listing[i]).0 == path)
                <==> links.contains_key(path)
            &&& (exists|i: int|
                0 <= i < listing.len() && (#[trigger] listing[i]).0 == path && listing[i].1)
                <==> links.contains_key(path) && links[path]
        }),
{
    let listing = ordered::<Vec<Component>, bool>(links);
    lemma_ordered_lists::<Vec<Component>, bool>(links);
    if links.contains_key(path) {
        let i = choose|i: int| 0 <= i < listing.len() && (#[trigger] listing[i]).0 == path;
        assert(listing[i].1 == links[path]);
    }
}

/// The nearest path that exists is the first one that does, from a path up to where it starts. There
/// is none where none of these exists.
pub proof fn law_nearest_is_the_first(path: PathModel, exists_at: Seq<bool>)
    requires
        exists_at.len() == ancestors_of(path).len(),
    ensures
        ancestors_of(path).len() > 0,
        ancestors_of(path)[0] == path,
        match first_existing(ancestors_of(path), exists_at) {
            Some(nearest) => exists|i: int|
                0 <= i < exists_at.len() && #[trigger] exists_at[i] && ancestors_of(path)[i]
                    == nearest && forall|j: int| 0 <= j < i ==> !#[trigger] exists_at[j],
            None => forall|i: int| 0 <= i < exists_at.len() ==> !#[trigger] exists_at[i],
        },
{
    lemma_first_existing(ancestors_of(path), exists_at);
}

proof fn lemma_first_existing(paths: Seq<PathModel>, exists_at: Seq<bool>)
    requires
        paths.len() == exists_at.len(),
    ensures
        match first_existing(paths, exists_at) {
            Some(nearest) => exists|i: int|
                0 <= i < exists_at.len() && #[trigger] exists_at[i] && paths[i] == nearest
                    && forall|j: int| 0 <= j < i ==> !#[trigger] exists_at[j],
            None => forall|i: int| 0 <= i < exists_at.len() ==> !#[trigger] exists_at[i],
        },
    decreases paths.len(),
{
    if paths.len() > 0 {
        let more = exists_at.drop_first();
        let rest = paths.drop_first();
        if exists_at[0] {
            assert(paths[0] == first_existing(paths, exists_at)->0);
        } else {
            lemma_first_existing(rest, more);
            match first_existing(rest, more) {
                Some(nearest) => {
                    let i = choose|i: int|
                        0 <= i < more.len() && #[trigger] more[i] && rest[i] == nearest && forall|
                            j: int,
                        |
                            0 <= j < i ==> !#[trigger] more[j];
                    assert(exists_at[i + 1] && paths[i + 1] == nearest);
                    assert forall|j: int| 0 <= j < i + 1 implies !#[trigger] exists_at[j] by {
                        if j > 0 {
                            assert(exists_at[j] == more[j - 1]);
                        }
                    }
                },
                None => {
                    assert forall|i: int|
                        0 <= i < exists_at.len() implies !#[trigger] exists_at[i] by {
                        if i > 0 {
                            assert(exists_at[i] == more[i - 1]);
                        }
                    }
                },
            }
        }
    }
}

} // verus!
