//! The universe of a snapshot: everything besides the source files that its content depends on.

use vstd::prelude::*;
use vstd::string::*;
use vstd::utf8::encode_utf8;

use crate::cache::{producer, producer_of, text_result};
use crate::digest::{digest_bytes, digest_of, is_digest_text};
use crate::error::{GraphError, GraphErrorModel, outcome};
use crate::json::{Json, JsonModel, digest_json, json_digest};
use crate::order::Key;
use crate::plain::Plain;
use crate::snapshot::{
    GraphSnapshotProducer, GraphSnapshotProducerModel, GraphSnapshotUniverse,
    GraphSnapshotUniverseModel,
};
use crate::sorting::{
    distinct_sorted, lemma_distinct_sorted, lemma_distinct_sorted_members, lemma_sorted_unique,
    lemma_stable_sorted, sort_distinct, stable_sort, stable_sorted,
};
use crate::text::{
    after_prefix, join, join_texts, normalize_path, normalized, same_text, strip_text_prefix, truth,
    truth_text,
};
use crate::wire::{Encoded, field};

verus! {

/// A dependency of a package.
#[derive(Debug, Clone, PartialEq, Eq)]
pub struct DependencyFacts {
    pub name: String,
    pub package_id: String,
    pub kind: String,
}

/// The content of a [`DependencyFacts`].
pub struct DependencyFactsModel {
    pub name: Seq<char>,
    pub package_id: Seq<char>,
    pub kind: Seq<char>,
}

impl DeepView for DependencyFacts {
    type V = DependencyFactsModel;

    open spec fn deep_view(&self) -> DependencyFactsModel {
        DependencyFactsModel {
            name: self.name.deep_view(),
            package_id: self.package_id.deep_view(),
            kind: self.kind.deep_view(),
        }
    }
}

impl Plain for DependencyFacts {
    fn duplicate(&self) -> (copy: Self) {
        DependencyFacts {
            name: self.name.duplicate(),
            package_id: self.package_id.duplicate(),
            kind: self.kind.duplicate(),
        }
    }

    fn same(&self, other: &Self) -> (equal: bool) {
        self.name.same(&other.name)
            && self.package_id.same(&other.package_id)
            && self.kind.same(&other.kind)
    }
}

/// A target of a package.
#[derive(Debug, Clone, PartialEq, Eq)]
pub struct TargetFacts {
    pub name: String,
    pub kind: String,
    pub root: String,
    pub required_features: Vec<String>,
}

/// The content of a [`TargetFacts`].
pub struct TargetFactsModel {
    pub name: Seq<char>,
    pub kind: Seq<char>,
    pub root: Seq<char>,
    pub required_features: Seq<Seq<char>>,
}

impl DeepView for TargetFacts {
    type V = TargetFactsModel;

    open spec fn deep_view(&self) -> TargetFactsModel {
        TargetFactsModel {
            name: self.name.deep_view(),
            kind: self.kind.deep_view(),
            root: self.root.deep_view(),
            required_features: self.required_features.deep_view(),
        }
    }
}

impl Plain for TargetFacts {
    fn duplicate(&self) -> (copy: Self) {
        TargetFacts {
            name: self.name.duplicate(),
            kind: self.kind.duplicate(),
            root: self.root.duplicate(),
            required_features: self.required_features.duplicate(),
        }
    }

    fn same(&self, other: &Self) -> (equal: bool) {
        self.name.same(&other.name)
            && self.kind.same(&other.kind)
            && self.root.same(&other.root)
            && self.required_features.same(&other.required_features)
    }
}

/// A package of a workspace.
#[derive(Debug, Clone, PartialEq, Eq)]
pub struct PackageFacts {
    pub id: String,
    pub name: String,
    pub version: String,
    pub manifest: String,
    pub edition: String,
    pub active_features: Vec<String>,
    pub dependencies: Vec<DependencyFacts>,
    pub targets: Vec<TargetFacts>,
}

/// The content of a [`PackageFacts`].
pub struct PackageFactsModel {
    pub id: Seq<char>,
    pub name: Seq<char>,
    pub version: Seq<char>,
    pub manifest: Seq<char>,
    pub edition: Seq<char>,
    pub active_features: Seq<Seq<char>>,
    pub dependencies: Seq<DependencyFactsModel>,
    pub targets: Seq<TargetFactsModel>,
}

impl DeepView for PackageFacts {
    type V = PackageFactsModel;

    open spec fn deep_view(&self) -> PackageFactsModel {
        PackageFactsModel {
            id: self.id.deep_view(),
            name: self.name.deep_view(),
            version: self.version.deep_view(),
            manifest: self.manifest.deep_view(),
            edition: self.edition.deep_view(),
            active_features: self.active_features.deep_view(),
            dependencies: self.dependencies.deep_view(),
            targets: self.targets.deep_view(),
        }
    }
}

impl Plain for PackageFacts {
    fn duplicate(&self) -> (copy: Self) {
        PackageFacts {
            id: self.id.duplicate(),
            name: self.name.duplicate(),
            version: self.version.duplicate(),
            manifest: self.manifest.duplicate(),
            edition: self.edition.duplicate(),
            active_features: self.active_features.duplicate(),
            dependencies: self.dependencies.duplicate(),
            targets: self.targets.duplicate(),
        }
    }

    fn same(&self, other: &Self) -> (equal: bool) {
        self.id.same(&other.id)
            && self.name.same(&other.name)
            && self.version.same(&other.version)
            && self.manifest.same(&other.manifest)
            && self.edition.same(&other.edition)
            && self.active_features.same(&other.active_features)
            && self.dependencies.same(&other.dependencies)
            && self.targets.same(&other.targets)
    }
}

/// A file that the project model was made from, and its bytes at that time.
#[derive(Debug, Clone, PartialEq, Eq)]
pub struct ProjectInput {
    pub path: String,
    pub bytes: Option<Vec<u8>>,
}

/// The content of a [`ProjectInput`].
pub struct ProjectInputModel {
    pub path: Seq<char>,
    pub bytes: Option<Seq<u8>>,
}

impl DeepView for ProjectInput {
    type V = ProjectInputModel;

    open spec fn deep_view(&self) -> ProjectInputModel {
        ProjectInputModel {
            path: self.path.deep_view(),
            bytes: self.bytes.deep_view(),
        }
    }
}

impl Plain for ProjectInput {
    fn duplicate(&self) -> (copy: Self) {
        ProjectInput {
            path: self.path.duplicate(),
            bytes: self.bytes.duplicate(),
        }
    }

    fn same(&self, other: &Self) -> (equal: bool) {
        self.path.same(&other.path)
            && self.bytes.same(&other.bytes)
    }
}

/// The exact compiler, or why it is not known.
#[derive(Debug, Clone, PartialEq, Eq)]
pub enum RustcIdentity {
    Known(String),
    Unavailable(String),
}

/// The content of a [`RustcIdentity`].
pub enum RustcIdentityModel {
    Known(Seq<char>),
    Unavailable(Seq<char>),
}

impl DeepView for RustcIdentity {
    type V = RustcIdentityModel;

    open spec fn deep_view(&self) -> RustcIdentityModel {
        match self {
            RustcIdentity::Known(version) => RustcIdentityModel::Known(version@),
            RustcIdentity::Unavailable(error) => RustcIdentityModel::Unavailable(error@),
        }
    }
}

impl Plain for RustcIdentity {
    fn duplicate(&self) -> (copy: Self) {
        match self {
            RustcIdentity::Known(version) => RustcIdentity::Known(version.duplicate()),
            RustcIdentity::Unavailable(error) => RustcIdentity::Unavailable(error.duplicate()),
        }
    }

    fn same(&self, other: &Self) -> (equal: bool) {
        match (self, other) {
            (RustcIdentity::Known(left), RustcIdentity::Known(right)) => left.same(right),
            (RustcIdentity::Unavailable(left), RustcIdentity::Unavailable(right)) => left.same(
                right,
            ),
            _ => false,
        }
    }
}

/// A workspace as the project model knows it.
#[derive(Debug, Clone, PartialEq, Eq)]
pub struct WorkspaceFacts {
    pub root: String,
    pub toolchain: Option<String>,
    /// The semantic description of the workspace.
    pub descriptor: String,
    pub project_inputs: Vec<ProjectInput>,
    /// The bytes of the lock file.
    pub lockfile: Option<Vec<u8>>,
    pub target: String,
    pub rustc_cfg: Vec<String>,
    pub cfg_overrides: String,
    pub set_test: bool,
    pub rustc_version: RustcIdentity,
    /// The packages, if the workspace is one of cargo.
    pub packages: Option<Vec<PackageFacts>>,
}

/// The content of a [`WorkspaceFacts`].
pub struct WorkspaceFactsModel {
    pub root: Seq<char>,
    pub toolchain: Option<Seq<char>>,
    pub descriptor: Seq<char>,
    pub project_inputs: Seq<ProjectInputModel>,
    pub lockfile: Option<Seq<u8>>,
    pub target: Seq<char>,
    pub rustc_cfg: Seq<Seq<char>>,
    pub cfg_overrides: Seq<char>,
    pub set_test: bool,
    pub rustc_version: RustcIdentityModel,
    pub packages: Option<Seq<PackageFactsModel>>,
}

impl DeepView for WorkspaceFacts {
    type V = WorkspaceFactsModel;

    open spec fn deep_view(&self) -> WorkspaceFactsModel {
        WorkspaceFactsModel {
            root: self.root.deep_view(),
            toolchain: self.toolchain.deep_view(),
            descriptor: self.descriptor.deep_view(),
            project_inputs: self.project_inputs.deep_view(),
            lockfile: self.lockfile.deep_view(),
            target: self.target.deep_view(),
            rustc_cfg: self.rustc_cfg.deep_view(),
            cfg_overrides: self.cfg_overrides.deep_view(),
            set_test: self.set_test.deep_view(),
            rustc_version: self.rustc_version.deep_view(),
            packages: self.packages.deep_view(),
        }
    }
}

impl Plain for WorkspaceFacts {
    fn duplicate(&self) -> (copy: Self) {
        WorkspaceFacts {
            root: self.root.duplicate(),
            toolchain: self.toolchain.duplicate(),
            descriptor: self.descriptor.duplicate(),
            project_inputs: self.project_inputs.duplicate(),
            lockfile: self.lockfile.duplicate(),
            target: self.target.duplicate(),
            rustc_cfg: self.rustc_cfg.duplicate(),
            cfg_overrides: self.cfg_overrides.duplicate(),
            set_test: self.set_test.duplicate(),
            rustc_version: self.rustc_version.duplicate(),
            packages: self.packages.duplicate(),
        }
    }

    fn same(&self, other: &Self) -> (equal: bool) {
        self.root.same(&other.root)
            && self.toolchain.same(&other.toolchain)
            && self.descriptor.same(&other.descriptor)
            && self.project_inputs.same(&other.project_inputs)
            && self.lockfile.same(&other.lockfile)
            && self.target.same(&other.target)
            && self.rustc_cfg.same(&other.rustc_cfg)
            && self.cfg_overrides.same(&other.cfg_overrides)
            && self.set_test.same(&other.set_test)
            && self.rustc_version.same(&other.rustc_version)
            && self.packages.same(&other.packages)
    }
}

/// The configuration of the server.
#[derive(Debug, Clone, PartialEq, Eq)]
pub struct ConfigurationFacts {
    /// The extra arguments of cargo.
    pub extra_args: Vec<String>,
    /// The whole configuration of cargo.
    pub cargo_config: String,
    pub ignored_proc_macros: Vec<(String, Vec<String>)>,
    /// The environment of the process.
    pub environment: Vec<(String, String)>,
    pub expand_proc_macros: bool,
    pub proc_macros_loaded: bool,
    pub run_build_scripts: bool,
    pub proc_macro_server: Option<String>,
    pub version: String,
    pub commit: Option<String>,
}

/// The content of a [`ConfigurationFacts`].
pub struct ConfigurationFactsModel {
    pub extra_args: Seq<Seq<char>>,
    pub cargo_config: Seq<char>,
    pub ignored_proc_macros: Seq<(Seq<char>, Seq<Seq<char>>)>,
    pub environment: Seq<(Seq<char>, Seq<char>)>,
    pub expand_proc_macros: bool,
    pub proc_macros_loaded: bool,
    pub run_build_scripts: bool,
    pub proc_macro_server: Option<Seq<char>>,
    pub version: Seq<char>,
    pub commit: Option<Seq<char>>,
}

impl DeepView for ConfigurationFacts {
    type V = ConfigurationFactsModel;

    open spec fn deep_view(&self) -> ConfigurationFactsModel {
        ConfigurationFactsModel {
            extra_args: self.extra_args.deep_view(),
            cargo_config: self.cargo_config.deep_view(),
            ignored_proc_macros: self.ignored_proc_macros.deep_view(),
            environment: self.environment.deep_view(),
            expand_proc_macros: self.expand_proc_macros.deep_view(),
            proc_macros_loaded: self.proc_macros_loaded.deep_view(),
            run_build_scripts: self.run_build_scripts.deep_view(),
            proc_macro_server: self.proc_macro_server.deep_view(),
            version: self.version.deep_view(),
            commit: self.commit.deep_view(),
        }
    }
}

impl Plain for ConfigurationFacts {
    fn duplicate(&self) -> (copy: Self) {
        ConfigurationFacts {
            extra_args: self.extra_args.duplicate(),
            cargo_config: self.cargo_config.duplicate(),
            ignored_proc_macros: self.ignored_proc_macros.duplicate(),
            environment: self.environment.duplicate(),
            expand_proc_macros: self.expand_proc_macros.duplicate(),
            proc_macros_loaded: self.proc_macros_loaded.duplicate(),
            run_build_scripts: self.run_build_scripts.duplicate(),
            proc_macro_server: self.proc_macro_server.duplicate(),
            version: self.version.duplicate(),
            commit: self.commit.duplicate(),
        }
    }

    fn same(&self, other: &Self) -> (equal: bool) {
        self.extra_args.same(&other.extra_args)
            && self.cargo_config.same(&other.cargo_config)
            && self.ignored_proc_macros.same(&other.ignored_proc_macros)
            && self.environment.same(&other.environment)
            && self.expand_proc_macros.same(&other.expand_proc_macros)
            && self.proc_macros_loaded.same(&other.proc_macros_loaded)
            && self.run_build_scripts.same(&other.run_build_scripts)
            && self.proc_macro_server.same(&other.proc_macro_server)
            && self.version.same(&other.version)
            && self.commit.same(&other.commit)
    }
}

/// The value of the first `--profile` that is followed by one.
pub open spec fn separate_profile(args: Seq<Seq<char>>) -> Option<Seq<char>>
    decreases args.len(),
{
    if args.len() < 2 {
        None
    } else if args[0] == "--profile"@ {
        Some(args[1])
    } else {
        separate_profile(args.drop_first())
    }
}

/// The value of the first argument that starts with `--profile=`.
pub open spec fn attached_profile(args: Seq<Seq<char>>) -> Option<Seq<char>>
    decreases args.len(),
{
    if args.len() == 0 {
        None
    } else {
        match after_prefix(args[0], "--profile="@) {
            Some(profile) => Some(profile),
            None => attached_profile(args.drop_first()),
        }
    }
}

/// The profile that extra arguments select.
pub open spec fn profile_of(args: Seq<Seq<char>>) -> Seq<char> {
    if args.contains("--release"@) {
        "release"@
    } else {
        match separate_profile(args) {
            Some(profile) => profile,
            None => match attached_profile(args) {
                Some(profile) => profile,
                None => "dev"@,
            },
        }
    }
}

fn has_argument(args: &Vec<String>, sought: &str) -> (found: bool)
    ensures
        found == args.deep_view().contains(sought@),
{
    let ghost all = args.deep_view();
    let mut index: usize = 0;
    while index < args.len()
        invariant
            index <= args.len(),
            all == args.deep_view(),
            forall|i: int| 0 <= i < index ==> #[trigger] all[i] != sought@,
        decreases args.len() - index,
    {
        assert(all[index as int] == args@[index as int]@);
        if same_text(args[index].as_str(), sought) {
            return true;
        }
        index += 1;
    }
    false
}

fn find_separate_profile(args: &Vec<String>) -> (profile: Option<String>)
    ensures
        profile.deep_view() == separate_profile(args.deep_view()),
{
    let ghost all = args.deep_view();
    let mut index: usize = 0;
    assert(all.skip(0) =~= all);
    while args.len() >= 2 && index < args.len() - 1
        invariant
            index <= args.len(),
            all == args.deep_view(),
            separate_profile(all) == separate_profile(all.skip(index as int)),
        decreases args.len() - index,
    {
        let ghost rest = all.skip(index as int);
        assert(rest[0] == args@[index as int]@);
        assert(rest[1] == args@[index + 1]@);
        if same_text(args[index].as_str(), "--profile") {
            return Some(args[index + 1].clone());
        }
        assert(rest.drop_first() =~= all.skip(index + 1));
        index += 1;
    }
    None
}

fn find_attached_profile(args: &Vec<String>) -> (profile: Option<String>)
    ensures
        profile.deep_view() == attached_profile(args.deep_view()),
{
    let ghost all = args.deep_view();
    let mut index: usize = 0;
    assert(all.skip(0) =~= all);
    while index < args.len()
        invariant
            index <= args.len(),
            all == args.deep_view(),
            attached_profile(all) == attached_profile(all.skip(index as int)),
        decreases args.len() - index,
    {
        let ghost rest = all.skip(index as int);
        assert(rest[0] == args@[index as int]@);
        match strip_text_prefix(args[index].as_str(), "--profile=") {
            Some(profile) => {
                return Some(profile);
            },
            None => {},
        }
        assert(rest.drop_first() =~= all.skip(index + 1));
        index += 1;
    }
    None
}

/// The profile that extra arguments select.
pub fn cargo_profile(extra_args: &Vec<String>) -> (profile: String)
    ensures
        profile@ == profile_of(extra_args.deep_view()),
{
    if has_argument(extra_args, "--release") {
        return "release".to_owned();
    }
    match find_separate_profile(extra_args) {
        Some(profile) => profile,
        None => match find_attached_profile(extra_args) {
            Some(profile) => profile,
            None => "dev".to_owned(),
        },
    }
}

/// The text that `std::fmt::Debug` gives for a list of crates with their ignored macros.
pub uninterp spec fn ignored_debug(ignored: Seq<(Seq<char>, Seq<Seq<char>>)>) -> Seq<char>;

/// Formats a list of crates with their ignored macros by `std::fmt::Debug`. What the text is, is
/// left to the standard library.
#[verifier::external_body]
fn debug_ignored(ignored: &Vec<(String, Vec<String>)>) -> (text: String)
    ensures
        text@ == ignored_debug(ignored.deep_view()),
{
    format!("{ignored:?}")
}

/// The macros of each crate in order.
pub open spec fn macros_sorted(ignored: Seq<(Seq<char>, Seq<Seq<char>>)>) -> Seq<
    (Seq<char>, Seq<Seq<char>>),
> {
    ignored.map_values(
        |entry: (Seq<char>, Seq<Seq<char>>)| (entry.0, stable_sorted::<String>(entry.1)),
    )
}

/// The digest of the ignored macros, which does not depend on the order in which they are given.
pub open spec fn ignored_digest(ignored: Seq<(Seq<char>, Seq<Seq<char>>)>) -> Seq<char> {
    digest_of(
        encode_utf8(
            ignored_debug(stable_sorted::<(String, Vec<String>)>(macros_sorted(ignored))),
        ),
    )
}

fn digest_ignored(ignored: &Vec<(String, Vec<String>)>) -> (digest: String)
    ensures
        digest@ == ignored_digest(ignored.deep_view()),
{
    let ghost all = ignored.deep_view();
    let mut sorted: Vec<(String, Vec<String>)> = Vec::new();
    let mut index: usize = 0;
    while index < ignored.len()
        invariant
            index <= ignored.len(),
            all == ignored.deep_view(),
            sorted.deep_view() == macros_sorted(all).take(index as int),
        decreases ignored.len() - index,
    {
        let mut macros = ignored[index].1.duplicate();
        stable_sort(&mut macros);
        let ghost before = sorted.deep_view();
        let ghost added = (ignored@[index as int].0@, macros.deep_view());
        sorted.push((ignored[index].0.clone(), macros));
        proof {
            assert(all[index as int] == ignored@[index as int].deep_view());
            assert(sorted.deep_view() =~= before.push(added));
            assert(sorted.deep_view() =~= macros_sorted(all).take(index + 1));
        }
        index += 1;
    }
    assert(macros_sorted(all).take(index as int) =~= macros_sorted(all));
    stable_sort(&mut sorted);
    let text = debug_ignored(&sorted);
    digest_bytes(text.as_str().as_bytes())
}

/// The variables of an environment, each with its value.
pub open spec fn assignments(environment: Seq<(Seq<char>, Seq<char>)>) -> Seq<Seq<char>> {
    environment.map_values(|entry: (Seq<char>, Seq<char>)| entry.0 + "="@ + entry.1)
}

/// The digest of an environment, which does not depend on the order of its variables.
pub open spec fn environment_digest(environment: Seq<(Seq<char>, Seq<char>)>) -> Seq<char> {
    digest_of(
        encode_utf8(join(stable_sorted::<String>(assignments(environment)), "\0"@)),
    )
}

fn digest_environment(environment: &Vec<(String, String)>) -> (digest: String)
    ensures
        digest@ == environment_digest(environment.deep_view()),
{
    let ghost all = environment.deep_view();
    let mut list: Vec<String> = Vec::new();
    let mut index: usize = 0;
    while index < environment.len()
        invariant
            index <= environment.len(),
            all == environment.deep_view(),
            list.deep_view() == assignments(all).take(index as int),
        decreases environment.len() - index,
    {
        let mut text = environment[index].0.clone();
        text.append("=");
        text.append(environment[index].1.as_str());
        let ghost before = list.deep_view();
        let ghost added = text@;
        list.push(text);
        proof {
            assert(all[index as int] == environment@[index as int].deep_view());
            assert(list.deep_view() =~= before.push(added));
            assert(list.deep_view() =~= assignments(all).take(index + 1));
        }
        index += 1;
    }
    assert(assignments(all).take(index as int) =~= assignments(all));
    stable_sort(&mut list);
    let text = join_texts(&list, "\0");
    digest_bytes(text.as_str().as_bytes())
}

/// A line made of a label and a value.
fn labelled(label: &str, value: &str) -> (line: String)
    ensures
        line@ == label@ + value@,
{
    let mut line = label.to_owned();
    line.append(value);
    line
}

/// The lines of the configuration of the server.
pub open spec fn server_lines(
    facts: ConfigurationFactsModel,
    external_inputs: Seq<char>,
) -> Seq<Seq<char>> {
    seq![
        "profile="@ + profile_of(facts.extra_args),
        "cargo-config-sha256="@ + digest_of(encode_utf8(facts.cargo_config)),
        "environment-sha256="@ + environment_digest(facts.environment),
        "expand-proc-macros="@ + truth(facts.expand_proc_macros),
        "proc-macros-loaded="@ + truth(facts.proc_macros_loaded),
        "run-build-scripts="@ + truth(facts.run_build_scripts),
        "ignored-proc-macros-sha256="@ + ignored_digest(facts.ignored_proc_macros),
        "proc-macro-server="@ + match facts.proc_macro_server {
            Some(path) => normalized(path),
            None => "sysroot-or-unavailable"@,
        },
        "external-inputs-sha256="@ + external_inputs,
    ]
}

fn collect_server_lines(facts: &ConfigurationFacts, external_inputs: &str) -> (lines: Vec<String>)
    ensures
        lines.deep_view() == server_lines(facts.deep_view(), external_inputs@),
{
    let server = match &facts.proc_macro_server {
        Some(path) => normalize_path(path.as_str()),
        None => "sysroot-or-unavailable".to_owned(),
    };
    let lines: Vec<String> = vec![
        labelled("profile=", cargo_profile(&facts.extra_args).as_str()),
        labelled(
            "cargo-config-sha256=",
            digest_bytes(facts.cargo_config.as_str().as_bytes()).as_str(),
        ),
        labelled("environment-sha256=", digest_environment(&facts.environment).as_str()),
        labelled("expand-proc-macros=", truth_text(facts.expand_proc_macros)),
        labelled("proc-macros-loaded=", truth_text(facts.proc_macros_loaded)),
        labelled("run-build-scripts=", truth_text(facts.run_build_scripts)),
        labelled(
            "ignored-proc-macros-sha256=",
            digest_ignored(&facts.ignored_proc_macros).as_str(),
        ),
        labelled("proc-macro-server=", server.as_str()),
        labelled("external-inputs-sha256=", external_inputs),
    ];
    assert(lines.deep_view() =~= server_lines(facts.deep_view(), external_inputs@));
    lines
}

/// The digest of bytes, or that they are missing.
pub open spec fn digest_or_missing(bytes: Option<Seq<u8>>) -> Seq<char> {
    match bytes {
        Some(bytes) => digest_of(bytes),
        None => "missing"@,
    }
}

fn digest_optional(bytes: &Option<Vec<u8>>) -> (digest: String)
    ensures
        digest@ == digest_or_missing(bytes.deep_view()),
{
    match bytes {
        Some(bytes) => {
            assert(bytes.deep_view() =~= bytes@);
            digest_bytes(bytes.as_slice())
        },
        None => "missing".to_owned(),
    }
}

/// The line of a file that the project model was made from.
pub open spec fn project_input_line(input: ProjectInputModel) -> Seq<char> {
    "project-input="@ + normalized(input.path) + ";sha256="@ + digest_or_missing(input.bytes)
}

/// The lines of the files that the project model was made from.
pub open spec fn project_input_lines(inputs: Seq<ProjectInputModel>) -> Seq<Seq<char>> {
    Seq::new(inputs.len(), |i: int| project_input_line(inputs[i]))
}

fn add_project_inputs(lines: &mut Vec<String>, inputs: &Vec<ProjectInput>)
    ensures
        final(lines).deep_view() == old(lines).deep_view() + project_input_lines(
            inputs.deep_view(),
        ),
{
    let ghost start = lines.deep_view();
    let ghost all = inputs.deep_view();
    let ghost added = project_input_lines(all);
    let mut index: usize = 0;
    assert(lines.deep_view() =~= start + added.take(0));
    while index < inputs.len()
        invariant
            index <= inputs.len(),
            all == inputs.deep_view(),
            added == project_input_lines(all),
            lines.deep_view() == start + added.take(index as int),
        decreases inputs.len() - index,
    {
        let input = &inputs[index];
        let ghost before = lines.deep_view();
        let mut line = "project-input=".to_owned();
        line.append(normalize_path(input.path.as_str()).as_str());
        line.append(";sha256=");
        line.append(digest_optional(&input.bytes).as_str());
        let ghost text = line@;
        lines.push(line);
        proof {
            assert(all[index as int] == input.deep_view());
            assert(text == added[index as int]);
            assert(lines.deep_view() =~= before.push(text));
            assert(lines.deep_view() =~= start + added.take(index + 1));
        }
        index += 1;
    }
    assert(added.take(index as int) =~= added);
}

/// The lines of the flags of the compiler.
pub open spec fn cfg_lines(cfg: Seq<Seq<char>>) -> Seq<Seq<char>> {
    Seq::new(cfg.len(), |i: int| "cfg="@ + cfg[i])
}

fn add_cfg(lines: &mut Vec<String>, cfg: &Vec<String>)
    ensures
        final(lines).deep_view() == old(lines).deep_view() + cfg_lines(cfg.deep_view()),
{
    let ghost start = lines.deep_view();
    let ghost all = cfg.deep_view();
    let ghost added = cfg_lines(all);
    let mut index: usize = 0;
    assert(lines.deep_view() =~= start + added.take(0));
    while index < cfg.len()
        invariant
            index <= cfg.len(),
            all == cfg.deep_view(),
            added == cfg_lines(all),
            lines.deep_view() == start + added.take(index as int),
        decreases cfg.len() - index,
    {
        let ghost before = lines.deep_view();
        let line = labelled("cfg=", cfg[index].as_str());
        let ghost text = line@;
        lines.push(line);
        proof {
            assert(all[index as int] == cfg@[index as int]@);
            assert(text == added[index as int]);
            assert(lines.deep_view() =~= before.push(text));
            assert(lines.deep_view() =~= start + added.take(index + 1));
        }
        index += 1;
    }
    assert(added.take(index as int) =~= added);
}

/// A dependency in a line of a package.
pub open spec fn dependency_text(dependency: DependencyFactsModel) -> Seq<char> {
    dependency.name + ":"@ + dependency.package_id + ":"@ + dependency.kind
}

/// The dependencies in a line of a package.
pub open spec fn dependency_texts(dependencies: Seq<DependencyFactsModel>) -> Seq<Seq<char>> {
    Seq::new(dependencies.len(), |i: int| dependency_text(dependencies[i]))
}

fn describe_dependencies(dependencies: &Vec<DependencyFacts>) -> (texts: Vec<String>)
    ensures
        texts.deep_view() == dependency_texts(dependencies.deep_view()),
{
    let ghost all = dependencies.deep_view();
    let mut texts: Vec<String> = Vec::new();
    let mut index: usize = 0;
    while index < dependencies.len()
        invariant
            index <= dependencies.len(),
            all == dependencies.deep_view(),
            texts.deep_view() == dependency_texts(all).take(index as int),
        decreases dependencies.len() - index,
    {
        let dependency = &dependencies[index];
        let mut text = dependency.name.clone();
        text.append(":");
        text.append(dependency.package_id.as_str());
        text.append(":");
        text.append(dependency.kind.as_str());
        let ghost before = texts.deep_view();
        let ghost added = text@;
        texts.push(text);
        proof {
            assert(all[index as int] == dependency.deep_view());
            assert(texts.deep_view() =~= before.push(added));
            assert(texts.deep_view() =~= dependency_texts(all).take(index + 1));
        }
        index += 1;
    }
    assert(dependency_texts(all).take(index as int) =~= dependency_texts(all));
    texts
}

/// The line of a package.
pub open spec fn package_line(package: PackageFactsModel) -> Seq<char> {
    "package-id="@ + package.id + ";name="@ + package.name + "@"@ + package.version + ";manifest="@
        + normalized(package.manifest) + ";edition="@ + package.edition + ";features="@ + join(
        stable_sorted::<String>(package.active_features),
        ","@,
    ) + ";dependencies="@ + join(
        stable_sorted::<String>(dependency_texts(package.dependencies)),
        ","@,
    )
}

fn describe_package(package: &PackageFacts) -> (line: String)
    ensures
        line@ == package_line(package.deep_view()),
{
    let mut features = package.active_features.duplicate();
    stable_sort(&mut features);
    let mut dependencies = describe_dependencies(&package.dependencies);
    stable_sort(&mut dependencies);
    let mut line = "package-id=".to_owned();
    line.append(package.id.as_str());
    line.append(";name=");
    line.append(package.name.as_str());
    line.append("@");
    line.append(package.version.as_str());
    line.append(";manifest=");
    line.append(normalize_path(package.manifest.as_str()).as_str());
    line.append(";edition=");
    line.append(package.edition.as_str());
    line.append(";features=");
    line.append(join_texts(&features, ",").as_str());
    line.append(";dependencies=");
    line.append(join_texts(&dependencies, ",").as_str());
    line
}

/// The line of a target of a package.
pub open spec fn target_line(target: TargetFactsModel) -> Seq<char> {
    "target="@ + target.name + ";kind="@ + target.kind + ";root="@ + normalized(target.root)
        + ";required-features="@ + join(stable_sorted::<String>(target.required_features), ","@)
}

fn describe_target(target: &TargetFacts) -> (line: String)
    ensures
        line@ == target_line(target.deep_view()),
{
    let mut features = target.required_features.duplicate();
    stable_sort(&mut features);
    let mut line = "target=".to_owned();
    line.append(target.name.as_str());
    line.append(";kind=");
    line.append(target.kind.as_str());
    line.append(";root=");
    line.append(normalize_path(target.root.as_str()).as_str());
    line.append(";required-features=");
    line.append(join_texts(&features, ",").as_str());
    line
}

/// The lines of the targets of a package.
pub open spec fn target_lines(targets: Seq<TargetFactsModel>) -> Seq<Seq<char>> {
    Seq::new(targets.len(), |i: int| target_line(targets[i]))
}

/// The lines of the first packages, each followed by those of its targets.
pub open spec fn package_lines(packages: Seq<PackageFactsModel>, count: int) -> Seq<Seq<char>>
    decreases count,
{
    if count <= 0 {
        Seq::empty()
    } else {
        package_lines(packages, count - 1).push(package_line(packages[count - 1])) + target_lines(
            packages[count - 1].targets,
        )
    }
}

fn add_targets(lines: &mut Vec<String>, targets: &Vec<TargetFacts>)
    ensures
        final(lines).deep_view() == old(lines).deep_view() + target_lines(targets.deep_view()),
{
    let ghost start = lines.deep_view();
    let ghost all = targets.deep_view();
    let ghost added = target_lines(all);
    let mut index: usize = 0;
    assert(lines.deep_view() =~= start + added.take(0));
    while index < targets.len()
        invariant
            index <= targets.len(),
            all == targets.deep_view(),
            added == target_lines(all),
            lines.deep_view() == start + added.take(index as int),
        decreases targets.len() - index,
    {
        let ghost before = lines.deep_view();
        let line = describe_target(&targets[index]);
        let ghost text = line@;
        lines.push(line);
        proof {
            assert(all[index as int] == targets@[index as int].deep_view());
            assert(text == added[index as int]);
            assert(lines.deep_view() =~= before.push(text));
            assert(lines.deep_view() =~= start + added.take(index + 1));
        }
        index += 1;
    }
    assert(added.take(index as int) =~= added);
}

fn add_packages(lines: &mut Vec<String>, packages: &Vec<PackageFacts>)
    ensures
        final(lines).deep_view() == old(lines).deep_view() + package_lines(
            packages.deep_view(),
            packages.deep_view().len() as int,
        ),
{
    let ghost start = lines.deep_view();
    let ghost all = packages.deep_view();
    let mut index: usize = 0;
    assert(lines.deep_view() =~= start + package_lines(all, 0));
    while index < packages.len()
        invariant
            index <= packages.len(),
            all == packages.deep_view(),
            lines.deep_view() == start + package_lines(all, index as int),
        decreases packages.len() - index,
    {
        let package = &packages[index];
        let ghost before = lines.deep_view();
        assert(all[index as int] == package.deep_view());
        let line = describe_package(package);
        let ghost text = line@;
        lines.push(line);
        assert(lines.deep_view() =~= before.push(text));
        add_targets(lines, &package.targets);
        assert(lines.deep_view() =~= start + package_lines(all, index + 1));
        index += 1;
    }
}

/// The lines of a workspace whose compiler is known.
pub open spec fn workspace_lines(workspace: WorkspaceFactsModel, rustc: Seq<char>) -> Seq<Seq<char>> {
    seq!["workspace-descriptor-sha256="@ + digest_of(encode_utf8(workspace.descriptor))]
        + project_input_lines(workspace.project_inputs) + seq![
        "cargo-lock-sha256="@ + digest_or_missing(workspace.lockfile),
        "target="@ + workspace.target,
    ] + cfg_lines(workspace.rustc_cfg) + seq![
        "cfg-overrides="@ + workspace.cfg_overrides,
        "set-test="@ + truth(workspace.set_test),
        "rustc-version="@ + rustc,
    ] + match workspace.packages {
        Some(packages) => package_lines(packages, packages.len() as int),
        None => Seq::empty(),
    }
}

/// The error of a workspace whose compiler is not known.
pub open spec fn rustc_error(error: Seq<char>) -> GraphErrorModel {
    GraphErrorModel::Retry(
        "exact rustc identity was unavailable in the project model: "@ + error
            + "; reload and retry"@,
    )
}

/// The lines of the first workspaces.
pub open spec fn workspaces_lines(workspaces: Seq<WorkspaceFactsModel>, count: int) -> Result<
    Seq<Seq<char>>,
    GraphErrorModel,
>
    decreases count,
{
    if count <= 0 {
        Ok(Seq::empty())
    } else {
        match workspaces_lines(workspaces, count - 1) {
            Err(error) => Err(error),
            Ok(lines) => match workspaces[count - 1].rustc_version {
                RustcIdentityModel::Unavailable(error) => Err(rustc_error(error)),
                RustcIdentityModel::Known(rustc) => Ok(
                    lines + workspace_lines(workspaces[count - 1], rustc),
                ),
            },
        }
    }
}

proof fn lemma_workspaces_error(workspaces: Seq<WorkspaceFactsModel>, count: int, more: int)
    requires
        0 <= count <= more,
        workspaces_lines(workspaces, count) is Err,
    ensures
        workspaces_lines(workspaces, more) == workspaces_lines(workspaces, count),
    decreases more - count,
{
    if count < more {
        lemma_workspaces_error(workspaces, count, more - 1);
    }
}

fn push_line(lines: &mut Vec<String>, label: &str, value: &str)
    ensures
        final(lines).deep_view() == old(lines).deep_view().push(label@ + value@),
{
    let ghost before = lines.deep_view();
    lines.push(labelled(label, value));
    assert(lines.deep_view() =~= before.push(label@ + value@));
}

fn add_workspace(lines: &mut Vec<String>, workspace: &WorkspaceFacts, rustc: &str)
    ensures
        final(lines).deep_view() == old(lines).deep_view() + workspace_lines(
            workspace.deep_view(),
            rustc@,
        ),
{
    let ghost start = lines.deep_view();
    push_line(
        lines,
        "workspace-descriptor-sha256=",
        digest_bytes(workspace.descriptor.as_str().as_bytes()).as_str(),
    );
    add_project_inputs(lines, &workspace.project_inputs);
    push_line(lines, "cargo-lock-sha256=", digest_optional(&workspace.lockfile).as_str());
    push_line(lines, "target=", workspace.target.as_str());
    add_cfg(lines, &workspace.rustc_cfg);
    push_line(lines, "cfg-overrides=", workspace.cfg_overrides.as_str());
    push_line(lines, "set-test=", truth_text(workspace.set_test));
    push_line(lines, "rustc-version=", rustc);
    match &workspace.packages {
        Some(packages) => add_packages(lines, packages),
        None => {},
    }
    assert(lines.deep_view() =~= start + workspace_lines(workspace.deep_view(), rustc@));
}

fn add_workspaces(lines: &mut Vec<String>, workspaces: &Vec<WorkspaceFacts>) -> (result: Result<
    (),
    GraphError,
>)
    ensures
        match workspaces_lines(workspaces.deep_view(), workspaces.deep_view().len() as int) {
            Ok(added) => result is Ok && final(lines).deep_view() == old(lines).deep_view() + added,
            Err(error) => result is Err && result->Err_0.deep_view() == error,
        },
{
    let ghost start = lines.deep_view();
    let ghost all = workspaces.deep_view();
    let mut index: usize = 0;
    assert(lines.deep_view() =~= start + Seq::<Seq<char>>::empty());
    while index < workspaces.len()
        invariant
            index <= workspaces.len(),
            all == workspaces.deep_view(),
            start == old(lines).deep_view(),
            match workspaces_lines(all, index as int) {
                Ok(added) => lines.deep_view() == start + added,
                Err(_) => false,
            },
        decreases workspaces.len() - index,
    {
        let workspace = &workspaces[index];
        assert(all[index as int] == workspace.deep_view());
        match &workspace.rustc_version {
            RustcIdentity::Unavailable(error) => {
                let mut message =
                    "exact rustc identity was unavailable in the project model: ".to_owned();
                message.append(error.as_str());
                message.append("; reload and retry");
                proof {
                    lemma_workspaces_error(all, index + 1, all.len() as int);
                }
                return Err(GraphError::Retry(message));
            },
            RustcIdentity::Known(rustc) => {
                let ghost before = lines.deep_view();
                add_workspace(lines, workspace, rustc.as_str());
                assert(lines.deep_view() =~= start + workspaces_lines(all, index + 1)->Ok_0);
            },
        }
        index += 1;
    }
    Ok(())
}

/// The paths of the roots of workspaces.
pub open spec fn root_paths(workspaces: Seq<WorkspaceFactsModel>) -> Seq<Seq<char>> {
    Seq::new(workspaces.len(), |i: int| normalized(workspaces[i].root))
}

fn collect_roots(workspaces: &Vec<WorkspaceFacts>) -> (roots: Vec<String>)
    ensures
        roots.deep_view() == root_paths(workspaces.deep_view()),
{
    let ghost all = workspaces.deep_view();
    let mut roots: Vec<String> = Vec::new();
    let mut index: usize = 0;
    while index < workspaces.len()
        invariant
            index <= workspaces.len(),
            all == workspaces.deep_view(),
            roots.deep_view() == root_paths(all).take(index as int),
        decreases workspaces.len() - index,
    {
        let root = normalize_path(workspaces[index].root.as_str());
        let ghost before = roots.deep_view();
        let ghost added = root@;
        roots.push(root);
        proof {
            assert(all[index as int] == workspaces@[index as int].deep_view());
            assert(roots.deep_view() =~= before.push(added));
            assert(roots.deep_view() =~= root_paths(all).take(index + 1));
        }
        index += 1;
    }
    assert(root_paths(all).take(index as int) =~= root_paths(all));
    roots
}

/// The toolchains of the first workspaces that have one.
pub open spec fn toolchains_of(workspaces: Seq<WorkspaceFactsModel>, count: int) -> Seq<Seq<char>>
    decreases count,
{
    if count <= 0 {
        Seq::empty()
    } else {
        match workspaces[count - 1].toolchain {
            Some(toolchain) => toolchains_of(workspaces, count - 1).push(toolchain),
            None => toolchains_of(workspaces, count - 1),
        }
    }
}

fn collect_toolchains(workspaces: &Vec<WorkspaceFacts>) -> (toolchains: Vec<String>)
    ensures
        toolchains.deep_view() == toolchains_of(
            workspaces.deep_view(),
            workspaces.deep_view().len() as int,
        ),
{
    let ghost all = workspaces.deep_view();
    let mut toolchains: Vec<String> = Vec::new();
    let mut index: usize = 0;
    assert(toolchains.deep_view() =~= Seq::<Seq<char>>::empty());
    while index < workspaces.len()
        invariant
            index <= workspaces.len(),
            all == workspaces.deep_view(),
            toolchains.deep_view() == toolchains_of(all, index as int),
        decreases workspaces.len() - index,
    {
        assert(all[index as int] == workspaces@[index as int].deep_view());
        match &workspaces[index].toolchain {
            Some(toolchain) => {
                let ghost before = toolchains.deep_view();
                toolchains.push(toolchain.clone());
                assert(toolchains.deep_view() =~= before.push(toolchain@));
            },
            None => {},
        }
        index += 1;
    }
    toolchains
}

/// What the digest of a universe is taken of.
pub open spec fn universe_json(
    workspace_roots: Seq<Seq<char>>,
    toolchains: Seq<Seq<char>>,
    configurations: Seq<Seq<char>>,
    producer: GraphSnapshotProducerModel,
) -> JsonModel {
    JsonModel::Object(
        seq![
            ("workspaceRoots"@, <Vec<String>>::encoding(workspace_roots)),
            ("toolchains"@, <Vec<String>>::encoding(toolchains)),
            ("configurations"@, <Vec<String>>::encoding(configurations)),
            ("producer"@, GraphSnapshotProducer::encoding(producer)),
        ],
    )
}

/// The error of a universe whose external inputs are not known.
pub open spec fn inputs_error(error: Seq<char>) -> GraphErrorModel {
    GraphErrorModel::Retry(
        "external graph inputs are unavailable: "@ + error + "; retry the request"@,
    )
}

/// Says that the external inputs are not known.
pub fn unavailable_inputs(error: &str) -> (result: GraphError)
    ensures
        result.deep_view() == inputs_error(error@),
{
    let mut message = "external graph inputs are unavailable: ".to_owned();
    message.append(error);
    message.append("; retry the request");
    GraphError::Retry(message)
}

/// The universe of a server and its workspaces.
pub open spec fn universe_of(
    facts: ConfigurationFactsModel,
    workspaces: Seq<WorkspaceFactsModel>,
    external_inputs: Result<Seq<char>, Seq<char>>,
) -> Result<GraphSnapshotUniverseModel, GraphErrorModel> {
    match external_inputs {
        Err(error) => Err(inputs_error(error)),
        Ok(inputs) => match workspaces_lines(workspaces, workspaces.len() as int) {
            Err(error) => Err(error),
            Ok(lines) => {
                let workspace_roots = distinct_sorted(root_paths(workspaces));
                let toolchains = distinct_sorted(
                    toolchains_of(workspaces, workspaces.len() as int),
                );
                let configurations = distinct_sorted(server_lines(facts, inputs) + lines);
                let digest = json_digest(
                    universe_json(
                        workspace_roots,
                        toolchains,
                        configurations,
                        producer_of(facts.version, facts.commit),
                    ),
                );
                Ok(
                    GraphSnapshotUniverseModel {
                        target: "rust:"@ + digest,
                        digest,
                        workspace_roots,
                        toolchains,
                        configurations,
                    },
                )
            },
        },
    }
}

/// The universe of a server and its workspaces.
pub fn universe(
    facts: &ConfigurationFacts,
    workspaces: &Vec<WorkspaceFacts>,
    external_inputs: &Result<String, String>,
) -> (result: Result<GraphSnapshotUniverse, GraphError>)
    ensures
        outcome(result) == universe_of(
            facts.deep_view(),
            workspaces.deep_view(),
            text_result(*external_inputs),
        ),
        result matches Ok(universe) ==> is_digest_text(universe.digest@),
{
    let mut workspace_roots = collect_roots(workspaces);
    sort_distinct(&mut workspace_roots);
    let mut toolchains = collect_toolchains(workspaces);
    sort_distinct(&mut toolchains);
    let inputs = match external_inputs {
        Ok(inputs) => inputs,
        Err(error) => return Err(unavailable_inputs(error.as_str())),
    };
    let mut configurations = collect_server_lines(facts, inputs.as_str());
    match add_workspaces(&mut configurations, workspaces) {
        Ok(_) => {},
        Err(error) => return Err(error),
    }
    sort_distinct(&mut configurations);
    let producer = producer(facts.version.as_str(), &facts.commit);
    let fields: Vec<(String, Json)> = vec![
        field("workspaceRoots", workspace_roots.encode()),
        field("toolchains", toolchains.encode()),
        field("configurations", configurations.encode()),
        field("producer", producer.encode()),
    ];
    let json = Json::Object(fields);
    assert(json.deep_view()->Object_0 =~= universe_json(
        workspace_roots.deep_view(),
        toolchains.deep_view(),
        configurations.deep_view(),
        producer.deep_view(),
    )->Object_0);
    let digest = digest_json(&json);
    Ok(
        GraphSnapshotUniverse {
            target: labelled("rust:", digest.as_str()),
            digest,
            workspace_roots,
            toolchains,
            configurations,
        },
    )
}

/// Whether texts are in strictly increasing order.
pub open spec fn is_increasing(texts: Seq<Seq<char>>) -> bool {
    forall|i: int, j: int|
        0 <= i < j < texts.len() ==> <String as Key>::before(
            #[trigger] texts[i],
            #[trigger] texts[j],
        )
}

/// The lists of a universe are in order and hold nothing twice.
pub proof fn law_universe_is_ordered(
    facts: ConfigurationFactsModel,
    workspaces: Seq<WorkspaceFactsModel>,
    external_inputs: Result<Seq<char>, Seq<char>>,
)
    ensures
        universe_of(facts, workspaces, external_inputs) matches Ok(universe) ==> {
            &&& is_increasing(universe.workspace_roots)
            &&& is_increasing(universe.toolchains)
            &&& is_increasing(universe.configurations)
        },
{
    lemma_distinct_sorted(root_paths(workspaces));
    lemma_distinct_sorted(toolchains_of(workspaces, workspaces.len() as int));
    if external_inputs is Ok && workspaces_lines(workspaces, workspaces.len() as int) is Ok {
        lemma_distinct_sorted(
            server_lines(facts, external_inputs->Ok_0) + workspaces_lines(
                workspaces,
                workspaces.len() as int,
            )->Ok_0,
        );
    }
}

/// Whether the compiler of a workspace is known.
pub open spec fn has_compiler(workspace: WorkspaceFactsModel) -> bool {
    workspace.rustc_version is Known
}

/// The lines that a workspace whose compiler is known adds to the configuration.
pub open spec fn known_lines(workspace: WorkspaceFactsModel) -> Seq<Seq<char>> {
    workspace_lines(workspace, workspace.rustc_version->Known_0)
}

/// The lines of workspaces are exactly those of each of them, and there are such only where every
/// compiler is known.
pub proof fn lemma_workspaces_lines(workspaces: Seq<WorkspaceFactsModel>, count: int)
    requires
        0 <= count <= workspaces.len(),
    ensures
        workspaces_lines(workspaces, count) is Ok <==> forall|i: int|
            0 <= i < count ==> has_compiler(#[trigger] workspaces[i]),
        workspaces_lines(workspaces, count) matches Ok(lines) ==> forall|line: Seq<char>| #[trigger]
            lines.contains(line) <==> exists|i: int|
                0 <= i < count && known_lines(#[trigger] workspaces[i]).contains(line),
    decreases count,
{
    if count > 0 {
        lemma_workspaces_lines(workspaces, count - 1);
        let last = workspaces[count - 1];
        if workspaces_lines(workspaces, count) is Ok {
            let before = workspaces_lines(workspaces, count - 1)->Ok_0;
            let lines = workspaces_lines(workspaces, count)->Ok_0;
            assert(lines == before + known_lines(last));
            assert forall|line: Seq<char>| #[trigger] lines.contains(line) <==> exists|i: int|
                0 <= i < count && known_lines(#[trigger] workspaces[i]).contains(line) by {
                lemma_joined_contains(before, known_lines(last), line);
                if known_lines(last).contains(line) {
                    assert(known_lines(workspaces[count - 1]).contains(line));
                }
            }
        } else if workspaces_lines(workspaces, count - 1) is Ok {
            assert(!has_compiler(workspaces[count - 1]));
        }
    }
}

pub proof fn lemma_joined_contains(left: Seq<Seq<char>>, right: Seq<Seq<char>>, line: Seq<char>)
    ensures
        (left + right).contains(line) <==> left.contains(line) || right.contains(line),
{
    let all = left + right;
    if left.contains(line) {
        let i = choose|i: int| 0 <= i < left.len() && left[i] == line;
        assert(all[i] == line);
    }
    if right.contains(line) {
        let i = choose|i: int| 0 <= i < right.len() && right[i] == line;
        assert(all[left.len() + i] == line);
    }
}

pub proof fn lemma_toolchains_of(workspaces: Seq<WorkspaceFactsModel>, count: int)
    requires
        0 <= count <= workspaces.len(),
    ensures
        forall|toolchain: Seq<char>| #[trigger]
            toolchains_of(workspaces, count).contains(toolchain) <==> exists|i: int|
                0 <= i < count && (#[trigger] workspaces[i]).toolchain == Some(toolchain),
    decreases count,
{
    if count > 0 {
        lemma_toolchains_of(workspaces, count - 1);
        let before = toolchains_of(workspaces, count - 1);
        let all = toolchains_of(workspaces, count);
        assert forall|toolchain: Seq<char>| #[trigger]
            all.contains(toolchain) <==> exists|i: int|
            0 <= i < count && (#[trigger] workspaces[i]).toolchain == Some(toolchain) by {
            match workspaces[count - 1].toolchain {
                Some(last) => {
                    assert(all =~= before + seq![last]);
                    lemma_joined_contains(before, seq![last], toolchain);
                    assert(seq![last].contains(toolchain) <==> last == toolchain) by {
                        assert(seq![last][0] == last);
                    }
                },
                None => {},
            }
        }
    }
}

/// There is a universe exactly where the external inputs and the compilers of all workspaces are
/// known, and its target is its digest behind the name of the language.
pub proof fn law_universe_needs_every_compiler(
    facts: ConfigurationFactsModel,
    workspaces: Seq<WorkspaceFactsModel>,
    external_inputs: Result<Seq<char>, Seq<char>>,
)
    ensures
        universe_of(facts, workspaces, external_inputs) is Ok <==> external_inputs is Ok && forall|
            i: int,
        |
            0 <= i < workspaces.len() ==> has_compiler(#[trigger] workspaces[i]),
        universe_of(facts, workspaces, external_inputs) matches Ok(universe) ==> universe.target
            == "rust:"@ + universe.digest,
{
    lemma_workspaces_lines(workspaces, workspaces.len() as int);
}

/// Whether two lists hold the same workspaces, in whichever order and however often.
pub open spec fn are_same_workspaces(
    workspaces: Seq<WorkspaceFactsModel>,
    others: Seq<WorkspaceFactsModel>,
) -> bool {
    forall|workspace: WorkspaceFactsModel| #[trigger]
        workspaces.contains(workspace) <==> others.contains(workspace)
}

proof fn lemma_roots_among(workspaces: Seq<WorkspaceFactsModel>, others: Seq<WorkspaceFactsModel>)
    requires
        are_same_workspaces(workspaces, others),
    ensures
        forall|root: Seq<char>| #[trigger]
            root_paths(workspaces).contains(root) ==> root_paths(others).contains(root),
{
    assert forall|root: Seq<char>| #[trigger]
        root_paths(workspaces).contains(root) implies root_paths(others).contains(root) by {
        let i = choose|i: int|
            0 <= i < root_paths(workspaces).len() && root_paths(workspaces)[i] == root;
        assert(workspaces.contains(workspaces[i]));
        let j = choose|j: int| 0 <= j < others.len() && others[j] == workspaces[i];
        assert(root_paths(others)[j] == root);
    }
}

proof fn lemma_toolchains_among(
    workspaces: Seq<WorkspaceFactsModel>,
    others: Seq<WorkspaceFactsModel>,
)
    requires
        are_same_workspaces(workspaces, others),
    ensures
        forall|toolchain: Seq<char>| #[trigger]
            toolchains_of(workspaces, workspaces.len() as int).contains(toolchain)
                ==> toolchains_of(others, others.len() as int).contains(toolchain),
{
    lemma_toolchains_of(workspaces, workspaces.len() as int);
    lemma_toolchains_of(others, others.len() as int);
    assert forall|toolchain: Seq<char>| #[trigger]
        toolchains_of(workspaces, workspaces.len() as int).contains(
            toolchain,
        ) implies toolchains_of(others, others.len() as int).contains(toolchain) by {
        let i = choose|i: int|
            0 <= i < workspaces.len() && (#[trigger] workspaces[i]).toolchain == Some(toolchain);
        assert(workspaces.contains(workspaces[i]));
        let j = choose|j: int| 0 <= j < others.len() && others[j] == workspaces[i];
        assert(others[j].toolchain == Some(toolchain));
    }
}

proof fn lemma_lines_among(workspaces: Seq<WorkspaceFactsModel>, others: Seq<WorkspaceFactsModel>)
    requires
        are_same_workspaces(workspaces, others),
        workspaces_lines(workspaces, workspaces.len() as int) is Ok,
    ensures
        workspaces_lines(others, others.len() as int) is Ok,
        forall|line: Seq<char>| #[trigger]
            workspaces_lines(others, others.len() as int)->Ok_0.contains(line) ==> workspaces_lines(
                workspaces,
                workspaces.len() as int,
            )->Ok_0.contains(line),
{
    lemma_workspaces_lines(workspaces, workspaces.len() as int);
    lemma_workspaces_lines(others, others.len() as int);
    assert forall|i: int| 0 <= i < others.len() implies has_compiler(#[trigger] others[i]) by {
        assert(others.contains(others[i]) && workspaces.contains(others[i]));
        let j = choose|j: int| 0 <= j < workspaces.len() && workspaces[j] == others[i];
        assert(has_compiler(workspaces[j]));
    }
    let lines = workspaces_lines(workspaces, workspaces.len() as int)->Ok_0;
    let other_lines = workspaces_lines(others, others.len() as int)->Ok_0;
    assert forall|line: Seq<char>| #[trigger] other_lines.contains(line) implies lines.contains(
        line,
    ) by {
        let i = choose|i: int|
            0 <= i < others.len() && known_lines(#[trigger] others[i]).contains(line);
        assert(others.contains(others[i]) && workspaces.contains(others[i]));
        let j = choose|j: int| 0 <= j < workspaces.len() && workspaces[j] == others[i];
        assert(known_lines(workspaces[j]).contains(line));
    }
}

/// The universe does not depend on the order in which the workspaces are listed, nor on how often
/// each of them is.
pub proof fn law_workspace_order_is_ignored(
    facts: ConfigurationFactsModel,
    workspaces: Seq<WorkspaceFactsModel>,
    others: Seq<WorkspaceFactsModel>,
    external_inputs: Result<Seq<char>, Seq<char>>,
)
    requires
        are_same_workspaces(workspaces, others),
    ensures
        universe_of(facts, workspaces, external_inputs) is Ok <==> universe_of(
            facts,
            others,
            external_inputs,
        ) is Ok,
        universe_of(facts, workspaces, external_inputs) is Ok ==> universe_of(
            facts,
            workspaces,
            external_inputs,
        ) == universe_of(facts, others, external_inputs),
{
    if workspaces_lines(others, others.len() as int) is Ok {
        lemma_lines_among(others, workspaces);
    }
    if workspaces_lines(workspaces, workspaces.len() as int) is Ok {
        lemma_lines_among(workspaces, others);
        lemma_roots_among(workspaces, others);
        lemma_roots_among(others, workspaces);
        lemma_distinct_sorted_members(root_paths(workspaces), root_paths(others));
        lemma_toolchains_among(workspaces, others);
        lemma_toolchains_among(others, workspaces);
        lemma_distinct_sorted_members(
            toolchains_of(workspaces, workspaces.len() as int),
            toolchains_of(others, others.len() as int),
        );
        if external_inputs is Ok {
            let server = server_lines(facts, external_inputs->Ok_0);
            let lines = workspaces_lines(workspaces, workspaces.len() as int)->Ok_0;
            let other_lines = workspaces_lines(others, others.len() as int)->Ok_0;
            assert forall|line: Seq<char>| #[trigger]
                (server + lines).contains(line) <==> (server + other_lines).contains(line) by {
                lemma_joined_contains(server, lines, line);
                lemma_joined_contains(server, other_lines, line);
            }
            lemma_distinct_sorted_members(server + lines, server + other_lines);
        }
    }
}

/// The digest of an environment does not depend on the order of its variables.
pub proof fn law_environment_order_is_ignored(
    environment: Seq<(Seq<char>, Seq<char>)>,
    other: Seq<(Seq<char>, Seq<char>)>,
)
    requires
        assignments(environment).to_multiset() == assignments(other).to_multiset(),
    ensures
        environment_digest(environment) == environment_digest(other),
{
    let texts = assignments(environment);
    let other_texts = assignments(other);
    lemma_stable_sorted::<String>(texts);
    lemma_stable_sorted::<String>(other_texts);
    lemma_sorted_unique::<String>(
        stable_sorted::<String>(texts),
        stable_sorted::<String>(other_texts),
    );
}

} // verus!
