//! What the universe of a snapshot tells of the server and its workspaces.

use vstd::prelude::*;
use vstd::utf8::encode_utf8;

use crate::digest::digest_of;
use crate::sorting::{is_ranked, lemma_distinct_sorted, lemma_stable_sorted, stable_sorted};
use crate::text::{join, normalized, stands_at};
use crate::universe::{
    ConfigurationFactsModel, DependencyFactsModel, PackageFactsModel, ProjectInputModel,
    TargetFactsModel, WorkspaceFactsModel, assignments, attached_profile, dependency_texts,
    environment_digest, has_compiler, ignored_digest, known_lines, lemma_joined_contains,
    lemma_toolchains_of, lemma_workspaces_lines, package_lines, profile_of, root_paths,
    separate_profile, server_lines, target_lines, toolchains_of, universe_of, workspaces_lines,
};

verus! {

/// The word for a truth value.
pub open spec fn word_for(value: bool) -> Seq<char> {
    if value {
        "true"@
    } else {
        "false"@
    }
}

/// Whether a line tells of the configuration of a server.
pub open spec fn is_server_line(
    facts: ConfigurationFactsModel,
    external_inputs: Seq<char>,
    line: Seq<char>,
) -> bool {
    ||| line == "profile="@ + profile_of(facts.extra_args)
    ||| line == "cargo-config-sha256="@ + digest_of(encode_utf8(facts.cargo_config))
    ||| line == "environment-sha256="@ + environment_digest(facts.environment)
    ||| line == "expand-proc-macros="@ + word_for(facts.expand_proc_macros)
    ||| line == "proc-macros-loaded="@ + word_for(facts.proc_macros_loaded)
    ||| line == "run-build-scripts="@ + word_for(facts.run_build_scripts)
    ||| line == "ignored-proc-macros-sha256="@ + ignored_digest(facts.ignored_proc_macros)
    ||| facts.proc_macro_server is Some && line == "proc-macro-server="@ + normalized(
        facts.proc_macro_server->0,
    )
    ||| facts.proc_macro_server is None && line == "proc-macro-server="@
        + "sysroot-or-unavailable"@
    ||| line == "external-inputs-sha256="@ + external_inputs
}

/// Whether a line tells of a file that a project model was made from, with the digest of what it held
/// or that it was missing.
pub open spec fn is_input_line(input: ProjectInputModel, line: Seq<char>) -> bool {
    line == "project-input="@ + normalized(input.path) + ";sha256="@ + match input.bytes {
        Some(bytes) => digest_of(bytes),
        None => "missing"@,
    }
}

/// Whether texts tell of dependencies: the name, the package and the kind of each, in its place.
pub open spec fn are_dependency_texts(
    dependencies: Seq<DependencyFactsModel>,
    texts: Seq<Seq<char>>,
) -> bool {
    &&& texts.len() == dependencies.len()
    &&& forall|i: int|
        0 <= i < texts.len() ==> #[trigger] texts[i] == dependencies[i].name + ":"@
            + dependencies[i].package_id + ":"@ + dependencies[i].kind
}

/// Whether a line tells of a package: who it is, where it is declared, its edition, its active
/// features and what it depends on, these two in order.
pub open spec fn is_package_line(package: PackageFactsModel, line: Seq<char>) -> bool {
    exists|texts: Seq<Seq<char>>| #[trigger]
        are_dependency_texts(package.dependencies, texts) && line == "package-id="@ + package.id
            + ";name="@ + package.name + "@"@ + package.version + ";manifest="@ + normalized(
            package.manifest,
        ) + ";edition="@ + package.edition + ";features="@ + join(
            stable_sorted::<String>(package.active_features),
            ","@,
        ) + ";dependencies="@ + join(stable_sorted::<String>(texts), ","@)
}

/// Whether a line tells of a target: its name, its kind, its root and the features that it needs.
pub open spec fn is_target_line(target: TargetFactsModel, line: Seq<char>) -> bool {
    line == "target="@ + target.name + ";kind="@ + target.kind + ";root="@ + normalized(
        target.root,
    ) + ";required-features="@ + join(stable_sorted::<String>(target.required_features), ","@)
}

/// Whether a line tells of a package or of one of its targets.
pub open spec fn is_line_of_package(package: PackageFactsModel, line: Seq<char>) -> bool {
    ||| is_package_line(package, line)
    ||| exists|t: int|
        0 <= t < package.targets.len() && is_target_line(#[trigger] package.targets[t], line)
}

/// Whether a line tells of a workspace.
pub open spec fn is_workspace_line(workspace: WorkspaceFactsModel, line: Seq<char>) -> bool {
    ||| line == "workspace-descriptor-sha256="@ + digest_of(encode_utf8(workspace.descriptor))
    ||| exists|i: int|
        0 <= i < workspace.project_inputs.len() && is_input_line(
            #[trigger] workspace.project_inputs[i],
            line,
        )
    ||| workspace.lockfile is Some && line == "cargo-lock-sha256="@ + digest_of(
        workspace.lockfile->0,
    )
    ||| workspace.lockfile is None && line == "cargo-lock-sha256="@ + "missing"@
    ||| line == "target="@ + workspace.target
    ||| exists|i: int|
        0 <= i < workspace.rustc_cfg.len() && line == "cfg="@ + #[trigger] workspace.rustc_cfg[i]
    ||| line == "cfg-overrides="@ + workspace.cfg_overrides
    ||| line == "set-test="@ + word_for(workspace.set_test)
    ||| workspace.rustc_version is Known && line == "rustc-version="@
        + workspace.rustc_version->Known_0
    ||| workspace.packages is Some && exists|p: int|
        0 <= p < workspace.packages->0.len() && is_line_of_package(
            #[trigger] workspace.packages->0[p],
            line,
        )
}

proof fn lemma_server_lines(
    facts: ConfigurationFactsModel,
    external_inputs: Seq<char>,
    line: Seq<char>,
)
    ensures
        server_lines(facts, external_inputs).contains(line) <==> is_server_line(
            facts,
            external_inputs,
            line,
        ),
{
    let lines = server_lines(facts, external_inputs);
    assert(lines.len() == 9);
    if is_server_line(facts, external_inputs, line) {
        assert(lines[0] == line || lines[1] == line || lines[2] == line || lines[3] == line
            || lines[4] == line || lines[5] == line || lines[6] == line || lines[7] == line
            || lines[8] == line);
    }
    if lines.contains(line) {
        let i = choose|i: int| 0 <= i < lines.len() && lines[i] == line;
        assert(i == 0 || i == 1 || i == 2 || i == 3 || i == 4 || i == 5 || i == 6 || i == 7 || i
            == 8);
    }
}

proof fn lemma_target_lines(targets: Seq<TargetFactsModel>, line: Seq<char>)
    ensures
        target_lines(targets).contains(line) <==> exists|t: int|
            0 <= t < targets.len() && is_target_line(#[trigger] targets[t], line),
{
    let lines = target_lines(targets);
    if lines.contains(line) {
        let t = choose|t: int| 0 <= t < lines.len() && lines[t] == line;
        assert(is_target_line(targets[t], line));
    }
    if exists|t: int| 0 <= t < targets.len() && is_target_line(#[trigger] targets[t], line) {
        let t = choose|t: int| 0 <= t < targets.len() && is_target_line(#[trigger] targets[t], line);
        assert(lines[t] == line);
    }
}

proof fn lemma_package_line(package: PackageFactsModel, line: Seq<char>)
    ensures
        is_package_line(package, line) <==> line == crate::universe::package_line(package),
{
    let texts = dependency_texts(package.dependencies);
    assert(are_dependency_texts(package.dependencies, texts));
    assert forall|others: Seq<Seq<char>>| #[trigger]
        are_dependency_texts(package.dependencies, others) implies others == texts by {
        assert(others =~= texts);
    }
}

proof fn lemma_package_lines(packages: Seq<PackageFactsModel>, count: int, line: Seq<char>)
    requires
        0 <= count <= packages.len(),
    ensures
        package_lines(packages, count).contains(line) <==> exists|p: int|
            0 <= p < count && is_line_of_package(#[trigger] packages[p], line),
    decreases count,
{
    if count > 0 {
        let package = packages[count - 1];
        let before = package_lines(packages, count - 1);
        let named = before.push(crate::universe::package_line(package));
        lemma_package_lines(packages, count - 1, line);
        lemma_package_line(package, line);
        lemma_target_lines(package.targets, line);
        lemma_joined_contains(before, seq![crate::universe::package_line(package)], line);
        assert(named =~= before + seq![crate::universe::package_line(package)]);
        assert(seq![crate::universe::package_line(package)].contains(line) <==> line
            == crate::universe::package_line(package)) by {
            assert(seq![crate::universe::package_line(package)][0]
                == crate::universe::package_line(package));
        }
        lemma_joined_contains(named, target_lines(package.targets), line);
        if exists|p: int| 0 <= p < count - 1 && is_line_of_package(#[trigger] packages[p], line) {
            let p = choose|p: int|
                0 <= p < count - 1 && is_line_of_package(#[trigger] packages[p], line);
            assert(is_line_of_package(packages[p], line));
        }
    }
}

proof fn lemma_known_lines(workspace: WorkspaceFactsModel, line: Seq<char>)
    requires
        has_compiler(workspace),
    ensures
        known_lines(workspace).contains(line) <==> is_workspace_line(workspace, line),
{
    let first = seq![
        "workspace-descriptor-sha256="@ + digest_of(encode_utf8(workspace.descriptor)),
    ];
    let inputs = crate::universe::project_input_lines(workspace.project_inputs);
    let second = seq![
        "cargo-lock-sha256="@ + crate::universe::digest_or_missing(workspace.lockfile),
        "target="@ + workspace.target,
    ];
    let cfgs = crate::universe::cfg_lines(workspace.rustc_cfg);
    let third = seq![
        "cfg-overrides="@ + workspace.cfg_overrides,
        "set-test="@ + word_for(workspace.set_test),
        "rustc-version="@ + workspace.rustc_version->Known_0,
    ];
    let fourth = match workspace.packages {
        Some(packages) => package_lines(packages, packages.len() as int),
        None => Seq::empty(),
    };
    assert(known_lines(workspace) == first + inputs + second + cfgs + third + fourth);
    lemma_joined_contains(first, inputs, line);
    lemma_joined_contains(first + inputs, second, line);
    lemma_joined_contains(first + inputs + second, cfgs, line);
    lemma_joined_contains(first + inputs + second + cfgs, third, line);
    lemma_joined_contains(first + inputs + second + cfgs + third, fourth, line);
    assert(first.contains(line) <==> line == first[0]) by {
        assert(first[0] == first[0]);
    }
    assert(second.contains(line) <==> line == second[0] || line == second[1]);
    assert(third.contains(line) <==> line == third[0] || line == third[1] || line == third[2]);
    assert(inputs.contains(line) <==> exists|i: int|
        0 <= i < workspace.project_inputs.len() && is_input_line(
            #[trigger] workspace.project_inputs[i],
            line,
        )) by {
        if inputs.contains(line) {
            let i = choose|i: int| 0 <= i < inputs.len() && inputs[i] == line;
            assert(is_input_line(workspace.project_inputs[i], line));
        }
        if exists|i: int|
            0 <= i < workspace.project_inputs.len() && is_input_line(
                #[trigger] workspace.project_inputs[i],
                line,
            ) {
            let i = choose|i: int|
                0 <= i < workspace.project_inputs.len() && is_input_line(
                    #[trigger] workspace.project_inputs[i],
                    line,
                );
            assert(inputs[i] == line);
        }
    }
    assert(cfgs.contains(line) <==> exists|i: int|
        0 <= i < workspace.rustc_cfg.len() && line == "cfg="@ + #[trigger] workspace.rustc_cfg[i])
        by {
        if cfgs.contains(line) {
            let i = choose|i: int| 0 <= i < cfgs.len() && cfgs[i] == line;
            assert(line == "cfg="@ + workspace.rustc_cfg[i]);
        }
        if exists|i: int|
            0 <= i < workspace.rustc_cfg.len() && line == "cfg="@
                + #[trigger] workspace.rustc_cfg[i] {
            let i = choose|i: int|
                0 <= i < workspace.rustc_cfg.len() && line == "cfg="@
                    + #[trigger] workspace.rustc_cfg[i];
            assert(cfgs[i] == line);
        }
    }
    if workspace.packages is Some {
        lemma_package_lines(workspace.packages->0, workspace.packages->0.len() as int, line);
    }
}

/// The configurations of a universe are the lines that tell of the server and of each of its
/// workspaces, with their packages and targets, and no others.
pub proof fn law_universe_tells_of_the_workspaces(
    facts: ConfigurationFactsModel,
    workspaces: Seq<WorkspaceFactsModel>,
    external_inputs: Seq<char>,
    line: Seq<char>,
)
    ensures
        universe_of(facts, workspaces, Ok(external_inputs)) matches Ok(universe) ==> (
        universe.configurations.contains(line) <==> is_server_line(facts, external_inputs, line)
            || exists|i: int|
            0 <= i < workspaces.len() && is_workspace_line(#[trigger] workspaces[i], line)),
{
    if universe_of(facts, workspaces, Ok(external_inputs)) is Ok {
        let count = workspaces.len() as int;
        let lines = workspaces_lines(workspaces, count)->Ok_0;
        lemma_workspaces_lines(workspaces, count);
        lemma_server_lines(facts, external_inputs, line);
        lemma_joined_contains(server_lines(facts, external_inputs), lines, line);
        lemma_distinct_sorted(server_lines(facts, external_inputs) + lines);
        assert forall|i: int| 0 <= i < count implies known_lines(
            #[trigger] workspaces[i],
        ).contains(line) == is_workspace_line(workspaces[i], line) by {
            assert(has_compiler(workspaces[i]));
            lemma_known_lines(workspaces[i], line);
        }
        if exists|i: int| 0 <= i < count && known_lines(#[trigger] workspaces[i]).contains(line) {
            let i = choose|i: int|
                0 <= i < count && known_lines(#[trigger] workspaces[i]).contains(line);
            assert(is_workspace_line(workspaces[i], line));
        }
        if exists|i: int| 0 <= i < count && is_workspace_line(#[trigger] workspaces[i], line) {
            let i = choose|i: int|
                0 <= i < count && is_workspace_line(#[trigger] workspaces[i], line);
            assert(known_lines(workspaces[i]).contains(line));
        }
    }
}

/// A universe names the root of each workspace with slashes, and the toolchain of each that has one,
/// and no others. Its target is told apart by its digest.
pub proof fn law_universe_names_roots_and_toolchains(
    facts: ConfigurationFactsModel,
    workspaces: Seq<WorkspaceFactsModel>,
    external_inputs: Result<Seq<char>, Seq<char>>,
    text: Seq<char>,
)
    ensures
        universe_of(facts, workspaces, external_inputs) matches Ok(universe) ==> {
            &&& universe.workspace_roots.contains(text) <==> exists|i: int|
                0 <= i < workspaces.len() && normalized((#[trigger] workspaces[i]).root) == text
            &&& universe.toolchains.contains(text) <==> exists|i: int|
                0 <= i < workspaces.len() && (#[trigger] workspaces[i]).toolchain == Some(text)
            &&& universe.target == "rust:"@ + universe.digest
        },
{
    let roots = root_paths(workspaces);
    lemma_distinct_sorted(roots);
    lemma_distinct_sorted(toolchains_of(workspaces, workspaces.len() as int));
    lemma_toolchains_of(workspaces, workspaces.len() as int);
    if roots.contains(text) {
        let i = choose|i: int| 0 <= i < roots.len() && roots[i] == text;
        assert(normalized(workspaces[i].root) == text);
    }
    if exists|i: int|
        0 <= i < workspaces.len() && normalized((#[trigger] workspaces[i]).root) == text {
        let i = choose|i: int|
            0 <= i < workspaces.len() && normalized((#[trigger] workspaces[i]).root) == text;
        assert(roots[i] == text);
    }
}

/// The digest of an environment is that of its variables with their values, in order.
pub proof fn law_environment_shows_in_its_digest(environment: Seq<(Seq<char>, Seq<char>)>)
    ensures
        exists|lines: Seq<Seq<char>>| #[trigger]
            is_ranked::<String>(lines) && lines.to_multiset() == Seq::new(
                environment.len(),
                |i: int| environment[i].0 + "="@ + environment[i].1,
            ).to_multiset() && environment_digest(environment) == digest_of(
                encode_utf8(join(lines, "\0"@)),
            ),
{
    let lines = stable_sorted::<String>(assignments(environment));
    lemma_stable_sorted::<String>(assignments(environment));
    assert(assignments(environment) =~= Seq::new(
        environment.len(),
        |i: int| environment[i].0 + "="@ + environment[i].1,
    ));
    assert(is_ranked::<String>(lines));
}

/// Whether a position is the first at which an argument asks for a profile that follows it.
pub open spec fn is_first_separate(args: Seq<Seq<char>>, at: int) -> bool {
    &&& 0 <= at && at + 1 < args.len()
    &&& args[at] == "--profile"@
    &&& forall|i: int| 0 <= i < at ==> #[trigger] args[i] != "--profile"@
}

/// Whether a position is the first at which an argument asks for a profile and holds it.
pub open spec fn is_first_attached(args: Seq<Seq<char>>, at: int) -> bool {
    &&& 0 <= at < args.len()
    &&& "--profile="@.is_prefix_of(args[at])
    &&& forall|i: int| 0 <= i < at ==> !"--profile="@.is_prefix_of(#[trigger] args[i])
}

proof fn lemma_separate(args: Seq<Seq<char>>, at: int)
    requires
        is_first_separate(args, at),
    ensures
        separate_profile(args) == Some(args[at + 1]),
    decreases args.len(),
{
    if at > 0 {
        let rest = args.drop_first();
        assert(args[0] != "--profile"@);
        assert(is_first_separate(rest, at - 1)) by {
            assert forall|i: int| 0 <= i < at - 1 implies #[trigger] rest[i] != "--profile"@ by {
                assert(rest[i] == args[i + 1]);
            }
        }
        lemma_separate(rest, at - 1);
    }
}

proof fn lemma_no_separate(args: Seq<Seq<char>>)
    requires
        forall|i: int|
            0 <= i && i + 1 < args.len() ==> #[trigger] args[i] != "--profile"@,
    ensures
        separate_profile(args) is None,
    decreases args.len(),
{
    if args.len() >= 2 {
        let rest = args.drop_first();
        assert(args[0] != "--profile"@);
        assert forall|i: int| 0 <= i && i + 1 < rest.len() implies #[trigger] rest[i]
            != "--profile"@ by {
            assert(rest[i] == args[i + 1]);
        }
        lemma_no_separate(rest);
    }
}

proof fn lemma_prefix_stands(text: Seq<char>, prefix: Seq<char>)
    ensures
        prefix.is_prefix_of(text) <==> stands_at(text, prefix, 0),
{
}

proof fn lemma_attached(args: Seq<Seq<char>>, at: int)
    requires
        is_first_attached(args, at),
    ensures
        attached_profile(args) == Some(args[at].skip("--profile="@.len() as int)),
    decreases args.len(),
{
    lemma_prefix_stands(args[0], "--profile="@);
    if at > 0 {
        let rest = args.drop_first();
        assert(!"--profile="@.is_prefix_of(args[0]));
        assert(is_first_attached(rest, at - 1)) by {
            assert forall|i: int| 0 <= i < at - 1 implies !"--profile="@.is_prefix_of(
                #[trigger] rest[i],
            ) by {
                assert(rest[i] == args[i + 1]);
            }
        }
        lemma_attached(rest, at - 1);
    }
}

proof fn lemma_no_attached(args: Seq<Seq<char>>)
    requires
        forall|i: int| 0 <= i < args.len() ==> !"--profile="@.is_prefix_of(#[trigger] args[i]),
    ensures
        attached_profile(args) is None,
    decreases args.len(),
{
    if args.len() > 0 {
        let rest = args.drop_first();
        lemma_prefix_stands(args[0], "--profile="@);
        assert(!"--profile="@.is_prefix_of(args[0]));
        assert forall|i: int| 0 <= i < rest.len() implies !"--profile="@.is_prefix_of(
            #[trigger] rest[i],
        ) by {
            assert(rest[i] == args[i + 1]);
        }
        lemma_no_attached(rest);
    }
}

/// The profile is that for releases where that is asked for, whatever else is. Otherwise it is the one
/// that follows the first `--profile`, else the one that the first `--profile=` holds, and else that
/// for development.
pub proof fn law_profile_follows_the_arguments(args: Seq<Seq<char>>, at: int)
    ensures
        args.contains("--release"@) ==> profile_of(args) == "release"@,
        !args.contains("--release"@) && is_first_separate(args, at) ==> profile_of(args) == args[at
            + 1],
        !args.contains("--release"@) && (forall|i: int|
            0 <= i && i + 1 < args.len() ==> #[trigger] args[i] != "--profile"@)
            && is_first_attached(args, at) ==> profile_of(args) == args[at].skip(
            "--profile="@.len() as int,
        ),
        !args.contains("--release"@) && (forall|i: int|
            0 <= i && i + 1 < args.len() ==> #[trigger] args[i] != "--profile"@) && (forall|i: int|
            0 <= i < args.len() ==> !"--profile="@.is_prefix_of(#[trigger] args[i])) ==> profile_of(
            args,
        ) == "dev"@,
{
    if is_first_separate(args, at) {
        lemma_separate(args, at);
    }
    if forall|i: int| 0 <= i && i + 1 < args.len() ==> #[trigger] args[i] != "--profile"@ {
        lemma_no_separate(args);
    }
    if is_first_attached(args, at) {
        lemma_attached(args, at);
    }
    if forall|i: int| 0 <= i < args.len() ==> !"--profile="@.is_prefix_of(#[trigger] args[i]) {
        lemma_no_attached(args);
    }
}

} // verus!
