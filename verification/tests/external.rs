//! The inputs outside of the sources: which there are, what is captured of them, and what is
//! watched. The disk is a table in memory.

use std::collections::BTreeMap;

use graph_snapshot::digest::digest_bytes;
use graph_snapshot::ensure::ExternalInputCapture;
use graph_snapshot::error::GraphError;
use graph_snapshot::external::{
    DiskStatus, ExternalGraphInput, InputProbe, LocatedPath, PackageInput, ToolPlace, ToolProbe,
    WatchRoots, WorkspaceInputs, ancestors, choose_tool, external_graph_inputs,
    external_input_watch_roots, insert_missing_target_watch_roots, insert_watch_root,
    insert_with_parent, nearest_existing_watch_root, probe_external_tool,
    resolve_external_tool_path, tool_candidate,
};
use graph_snapshot::keys::{
    append_key_part, digest_content, external_input_key, external_input_key_suffix,
};
use graph_snapshot::paths::{
    Component, FsPath, file_name, join_paths, nonempty_parent, parent, path_from,
};
use graph_snapshot::symlinks::{
    Capture, EntryFacts, EntryPlan, InspectStep, Inspection, LinkTarget, LinkWalk,
    MAX_SYMLINK_HOPS, SymlinkPath, WalkAction, WalkEvent, canonical_link_identity,
    capture_symlink, capture_symlink_target, inspect_link, inspect_symlink_path, inspect_target,
    plan_entry,
};
use graph_snapshot::table::Table;

/// Splits a path at its slashes, as the standard library does.
fn path(text: &[u8]) -> FsPath {
    let mut components = Vec::new();
    if text.first() == Some(&b'/') {
        components.push(Component::RootDir);
    }
    for (index, part) in text.split(|byte| *byte == b'/').enumerate() {
        if part.is_empty() {
            continue;
        } else if part == b"." {
            if index == 0 {
                components.push(Component::CurDir);
            }
        } else if part == b".." {
            components.push(Component::ParentDir);
        } else {
            components.push(Component::Normal(part.to_vec()));
        }
    }
    components
}

/// Puts slashes between the components of a path.
fn bytes(path: &FsPath) -> Vec<u8> {
    let mut text = Vec::new();
    for component in path {
        if !text.is_empty() && text.last() != Some(&b'/') {
            text.push(b'/');
        }
        match component {
            Component::RootDir => text.push(b'/'),
            Component::CurDir => text.push(b'.'),
            Component::ParentDir => text.extend_from_slice(b".."),
            Component::Normal(name) | Component::Prefix(name) => text.extend_from_slice(name),
        }
    }
    text
}

fn at(text: &str) -> FsPath {
    path(text.as_bytes())
}

#[derive(Clone)]
enum Node {
    Directory,
    File(Vec<u8>),
    Link(Vec<u8>),
}

/// What is on disk, by path without links.
struct Disk {
    nodes: BTreeMap<Vec<u8>, Node>,
}

impl Disk {
    fn new() -> Self {
        let mut disk = Disk { nodes: BTreeMap::new() };
        disk.nodes.insert(b"/".to_vec(), Node::Directory);
        disk
    }

    fn directory(&mut self, text: &str) {
        let mut whole = Vec::new();
        for component in at(text) {
            whole.push(component);
            self.nodes.entry(bytes(&whole)).or_insert(Node::Directory);
        }
    }

    fn file(&mut self, name: &[u8], content: &str) {
        self.nodes.insert(name.to_vec(), Node::File(content.as_bytes().to_vec()));
    }

    fn link(&mut self, name: &str, target: &str) {
        self.nodes.insert(name.as_bytes().to_vec(), Node::Link(target.as_bytes().to_vec()));
    }

    fn remove(&mut self, name: &str) {
        self.nodes.remove(name.as_bytes());
    }

    /// The path without links, where something is there.
    fn resolve(&self, path_: &FsPath, follow: bool, hops: usize) -> Result<FsPath, DiskStatus> {
        if hops > 40 {
            return Err(DiskStatus::Failed);
        }
        let mut whole: FsPath = Vec::new();
        for (index, component) in path_.iter().enumerate() {
            if let Some(Node::File(_)) = self.nodes.get(&bytes(&whole)) {
                return Err(DiskStatus::NotADirectory);
            }
            match component {
                Component::CurDir => continue,
                Component::ParentDir => {
                    if whole.len() > 1 {
                        whole.pop();
                    }
                    continue;
                }
                _ => {}
            }
            let directory = whole.clone();
            whole.push(component.clone());
            match self.nodes.get(&bytes(&whole)) {
                None => return Err(DiskStatus::NotFound),
                Some(Node::Link(target)) if follow || index + 1 < path_.len() => {
                    let next = join_paths(&directory, &path(target));
                    let rest = path_[index + 1..].to_vec();
                    return self.resolve(&join_paths(&next, &rest), follow, hops + 1);
                }
                Some(_) => {}
            }
        }
        Ok(whole)
    }

    fn status(&self, path_: &FsPath, follow: bool) -> DiskStatus {
        match self.resolve(path_, follow, 0) {
            Err(status) => status,
            Ok(whole) => match &self.nodes[&bytes(&whole)] {
                Node::Directory => DiskStatus::Directory,
                Node::File(_) => DiskStatus::File,
                Node::Link(_) => DiskStatus::Symlink,
            },
        }
    }

    fn is_there(&self, path_: &FsPath) -> bool {
        self.resolve(path_, true, 0).is_ok()
    }

    fn nearest(&self, path_: &FsPath) -> Option<FsPath> {
        let present = ancestors(path_).iter().map(|path_| self.is_there(path_)).collect();
        nearest_existing_watch_root(path_, &present)
    }

    fn read(&self, path_: &FsPath) -> Vec<u8> {
        match &self.nodes[&bytes(&self.resolve(path_, true, 0).unwrap())] {
            Node::File(content) => content.clone(),
            _ => panic!("not a file"),
        }
    }

    fn read_link(&self, path_: &FsPath) -> LinkTarget {
        match &self.nodes[&bytes(&self.resolve(path_, false, 0).unwrap())] {
            Node::Link(target) => LinkTarget {
                path: path(target),
                bytes: target.clone(),
                is_absolute: target.first() == Some(&b'/'),
            },
            _ => panic!("not a link"),
        }
    }

    fn identity(&self, path_: &FsPath) -> FsPath {
        let canonical = parent(path_).and_then(|parent| self.resolve(&parent, true, 0).ok());
        canonical_link_identity(path_, &canonical)
    }

    fn names(&self, directory: &FsPath) -> Vec<FsPath> {
        let whole = self.resolve(directory, true, 0).unwrap();
        let mut names = Vec::new();
        for key in self.nodes.keys() {
            let below = path(key);
            if parent(&below) == Some(whole.clone()) {
                let mut name = directory.clone();
                name.push(below.last().unwrap().clone());
                names.push(name);
            }
        }
        names
    }

    fn follow(&self, capture: &mut Capture, input: &ExternalGraphInput, path_: &FsPath) {
        let relative = path_[input.root.len()..].to_vec();
        let (mut walk, mut next) = capture_symlink(
            capture,
            input,
            &bytes(&relative),
            self.identity(path_),
            &self.read_link(path_),
        );
        loop {
            let event = match self.inspect(next) {
                SymlinkPath::Link { path: link, suffix } => {
                    let identity = self.identity(&link);
                    let met = WalkEvent::Link { link: identity.clone(), suffix: suffix.clone() };
                    match capture_symlink_target(&mut walk, capture, met) {
                        WalkAction::ReadLink => WalkEvent::Read {
                            link_bytes: bytes(&identity),
                            link: identity,
                            suffix,
                            target: self.read_link(&link),
                        },
                        _ => return,
                    }
                }
                SymlinkPath::Existing { path: found, directory } => WalkEvent::Existing {
                    path: self.resolve(&found, true, 0).unwrap(),
                    directory,
                },
                SymlinkPath::Missing { path: missing } => {
                    WalkEvent::Missing { nearest: self.nearest(&missing) }
                }
            };
            match capture_symlink_target(&mut walk, capture, event) {
                WalkAction::Inspect(path_) => next = path_,
                _ => return,
            }
        }
    }

    fn inspect(&self, path_: FsPath) -> SymlinkPath {
        let mut step = inspect_symlink_path(path_);
        loop {
            step = match step {
                InspectStep::Link(inspection) => {
                    let status = self.status(&inspection.prefix, false);
                    inspect_link(inspection, status, "").unwrap()
                }
                InspectStep::Target(inspection) => {
                    let status = self.status(&inspection.prefix, true);
                    return inspect_target(inspection, status, "").unwrap();
                }
                InspectStep::Done(found) => return found,
            };
        }
    }

    /// Walks through a directory, links followed, but for those that lead back to a directory that
    /// is being walked through.
    fn walk(
        &self,
        capture: &mut Capture,
        input: &ExternalGraphInput,
        path_: &FsPath,
        around: &Vec<FsPath>,
    ) {
        let is_link = self.status(path_, false) == DiskStatus::Symlink;
        let whole = self.resolve(path_, true, 0);
        let facts = EntryFacts {
            failed: match &whole {
                Ok(whole) => around.contains(whole),
                Err(_) => true,
            },
            has_path: true,
            is_link,
            leads_to_file: is_link && self.status(path_, true) == DiskStatus::File,
            is_file: self.status(path_, true) == DiskStatus::File,
        };
        let plan = plan_entry(&facts);
        assert!(!plan.fail);
        if plan.follow {
            self.follow(capture, input, path_);
        }
        if plan.read {
            let relative = path_[input.root.len()..].to_vec();
            capture.capture_file(input, &bytes(&relative), self.read(path_));
        }
        if !facts.failed && self.status(path_, true) == DiskStatus::Directory {
            let mut inside = around.clone();
            inside.push(whole.unwrap());
            for name in self.names(path_) {
                self.walk(capture, input, &name, &inside);
            }
        }
    }

    fn capture(&self, inputs: &[ExternalGraphInput]) -> ExternalInputCapture {
        let mut capture = Capture::new();
        for input in inputs {
            let status = self.status(&input.root, false);
            if capture.begin_input(input, status, self.nearest(&input.root)) {
                self.walk(&mut capture, input, &input.root, &Vec::new());
            }
        }
        capture.finish()
    }

    fn watch(&self, inputs: &Vec<ExternalGraphInput>, links: &WatchRoots) -> Table<FsPath, bool> {
        let probes = inputs
            .iter()
            .map(|input| InputProbe {
                text: String::from_utf8(bytes(&input.root)).unwrap(),
                status: self.status(&input.root, true),
                error: "gone".to_owned(),
                nearest: self.nearest(&input.root),
            })
            .collect();
        external_input_watch_roots(inputs, &probes, links).unwrap()
    }
}

fn input(identity: &str, root: &str, optional: bool) -> ExternalGraphInput {
    ExternalGraphInput {
        identity: identity.to_owned(),
        root: at(root),
        root_bytes: root.as_bytes().to_vec(),
        optional,
    }
}

fn located(text: &str) -> LocatedPath {
    LocatedPath { path: at(text), bytes: text.as_bytes().to_vec(), text: text.to_owned() }
}

fn entries(roots: WatchRoots) -> Vec<(String, bool)> {
    roots
        .into_entries()
        .into_iter()
        .map(|(root, recursive)| (String::from_utf8(bytes(&root)).unwrap(), recursive))
        .collect()
}

fn pairs(list: &[(&str, bool)]) -> Vec<(String, bool)> {
    list.iter().map(|(root, recursive)| (root.to_string(), *recursive)).collect()
}

#[test]
fn external_input_digest_covers_hidden_generated_and_identity_inputs() {
    let mut disk = Disk::new();
    disk.directory("/t/.git");
    disk.directory("/t/target");
    disk.file(b"/t/src.rs", "pub fn source() {}\n");
    disk.file(b"/t/.git/config", "semantic-input-a\n");
    disk.file(b"/t/target/generated.rs", "pub const GENERATED: u8 = 1;\n");

    let dependency = |identity: &str| input(identity, "/t", false);
    let initial = disk.capture(&[dependency("package-a")]).digest;
    disk.file(b"/t/.git/config", "semantic-input-b\n");
    let hidden = disk.capture(&[dependency("package-a")]).digest;
    disk.file(b"/t/target/generated.rs", "pub const GENERATED: u8 = 2;\n");
    let generated = disk.capture(&[dependency("package-a")]).digest;
    let renamed_package = disk.capture(&[dependency("package-b")]).digest;

    assert_ne!(initial, hidden);
    assert_ne!(hidden, generated);
    assert_ne!(generated, renamed_package);
}

#[test]
fn optional_external_inputs_fence_missing_creation_and_removal() {
    let mut disk = Disk::new();
    disk.directory("/t");
    let inputs = vec![input("cargo-config", "/t/missing/config.toml", true)];
    let missing = disk.capture(&inputs);
    assert_eq!(
        disk.watch(&inputs, &missing.symlink_watch_roots).get(&at("/t")),
        Some(&false),
    );

    disk.directory("/t/missing");
    disk.file(b"/t/missing/config.toml", "[build]\ntarget-dir = 'target'\n");
    let created = disk.capture(&inputs);
    assert_ne!(created.digest, missing.digest);

    disk.remove("/t/missing/config.toml");
    let removed = disk.capture(&inputs);
    assert_eq!(removed.digest, missing.digest);
}

#[test]
fn external_tool_paths_preserve_absolute_and_anchor_explicit_relative_paths() {
    let workspace = at("/t");
    let absolute = located("/t/toolchain/rustc");

    assert_eq!(
        resolve_external_tool_path(&absolute, true, &workspace, &None, false, true).unwrap(),
        ToolPlace::At(at("/t/toolchain/rustc")),
    );
    assert_eq!(
        resolve_external_tool_path(&located("tools/cargo"), false, &workspace, &None, false, true)
            .unwrap(),
        ToolPlace::At(at("/t/tools/cargo")),
    );
}

#[test]
fn external_tool_paths_resolve_bare_commands_from_the_workspace_environment() {
    let mut disk = Disk::new();
    disk.directory("/t/toolchain/bin");
    disk.file(b"/t/toolchain/bin/cargo", "tool");
    let workspace = at("/t");
    let environment = Some(vec![("PATH".to_owned(), "toolchain/bin".to_owned())]);

    let place =
        resolve_external_tool_path(&located("cargo"), false, &workspace, &environment, false, true)
            .unwrap();
    assert_eq!(place, ToolPlace::Search("toolchain/bin".to_owned()));
    let candidate = tool_candidate(&at("toolchain/bin"), false, &workspace, &at("cargo"));
    let probes = vec![ToolProbe {
        is_file: disk.status(&candidate, true) == DiskStatus::File,
        path: candidate,
        extended: None,
    }];
    assert_eq!(choose_tool(&probes, "cargo").unwrap(), at("/t/toolchain/bin/cargo"));
}

#[test]
fn external_tool_paths_fail_closed_for_missing_bare_commands() {
    let workspace = at("/t/workspace");
    let environment = Some(vec![("PATH".to_owned(), "missing".to_owned())]);

    let tool = located("definitely-missing-rust-tool");
    let place =
        resolve_external_tool_path(&tool, false, &workspace, &environment, false, true).unwrap();
    assert_eq!(place, ToolPlace::Search("missing".to_owned()));
    let candidate = tool_candidate(&at("missing"), false, &workspace, &tool.path);
    assert_eq!(candidate, at("/t/workspace/missing/definitely-missing-rust-tool"));
    let probes = vec![ToolProbe { path: candidate, is_file: false, extended: None }];
    let error = choose_tool(&probes, &tool.text).unwrap_err();

    assert!(error.message().contains("unavailable on PATH"));
    assert!(!error.message().contains("/t/workspace"));
    assert_eq!(
        error,
        GraphError::Failed(
            "external graph tool `definitely-missing-rust-tool` is unavailable on PATH".to_owned(),
        ),
    );
}

#[test]
fn tool_paths_cover_every_case() {
    let workspace = at("/w");
    let none: Option<Vec<(String, String)>> = None;
    assert_eq!(
        resolve_external_tool_path(&located(""), false, &workspace, &none, false, true),
        Err(GraphError::Failed("external graph tool path is empty".to_owned())),
    );
    // The environment of the process stands in for the one of the workspace.
    assert_eq!(
        resolve_external_tool_path(&located("cargo"), false, &workspace, &none, false, true),
        Ok(ToolPlace::SearchProcess),
    );
    assert_eq!(
        resolve_external_tool_path(&located("cargo"), false, &workspace, &none, false, false),
        Err(GraphError::Failed(
            "external graph tool `cargo` is unavailable because PATH is unset".to_owned(),
        )),
    );
    // Names of variables are compared without case only where the system does so.
    let environment = Some(vec![
        ("HOME".to_owned(), "/h".to_owned()),
        ("Path".to_owned(), "/a".to_owned()),
        ("PATH".to_owned(), "/b".to_owned()),
    ]);
    assert_eq!(
        resolve_external_tool_path(&located("cargo"), false, &workspace, &environment, true, true),
        Ok(ToolPlace::Search("/a".to_owned())),
    );
    assert_eq!(
        resolve_external_tool_path(&located("cargo"), false, &workspace, &environment, false, true),
        Ok(ToolPlace::Search("/b".to_owned())),
    );
    // A directory of the search path is below the workspace unless it is absolute.
    assert_eq!(tool_candidate(&at(""), false, &workspace, &at("cargo")), at("/w/cargo"));
    assert_eq!(tool_candidate(&at("/bin"), true, &workspace, &at("cargo")), at("/bin/cargo"));
    // The first file is taken, else the first one with the extension of programs.
    let probe = |text: &str, is_file: bool, extended: Option<bool>| ToolProbe {
        path: at(text),
        is_file,
        extended: extended.map(|is_file| (at(&format!("{text}.exe")), is_file)),
    };
    assert_eq!(probe_external_tool(&probe("/a/cargo", true, Some(true))), Some(at("/a/cargo")));
    assert_eq!(
        probe_external_tool(&probe("/a/cargo", false, Some(true))),
        Some(at("/a/cargo.exe")),
    );
    assert_eq!(probe_external_tool(&probe("/a/cargo", false, Some(false))), None);
    assert_eq!(probe_external_tool(&probe("/a/cargo", false, None)), None);
    let probes = vec![
        probe("/a/cargo", false, Some(false)),
        probe("/b/cargo", false, Some(true)),
        probe("/c/cargo", true, None),
    ];
    assert_eq!(choose_tool(&probes, "cargo"), Ok(at("/b/cargo.exe")));
}

#[test]
fn a_missing_symlink_target_watches_its_nearest_existing_ancestor() {
    let mut disk = Disk::new();
    disk.directory("/t");
    assert_eq!(disk.nearest(&at("/t/missing/dependency/generated.rs")), Some(at("/t")));
}

#[test]
fn ancestors_lead_up_to_the_root() {
    assert_eq!(ancestors(&at("/a/b")), vec![at("/a/b"), at("/a"), at("/")]);
    assert_eq!(ancestors(&at("a/b")), vec![at("a/b"), at("a"), at("")]);
    assert_eq!(nearest_existing_watch_root(&at("/a/b"), &vec![false, false, false]), None);
    assert_eq!(
        nearest_existing_watch_root(&at("/a/b"), &vec![false, true, true]),
        Some(at("/a")),
    );
}

#[test]
fn external_input_watch_roots_fence_atomic_replacement_without_recursive_ancestors() {
    let mut disk = Disk::new();
    disk.directory("/t/input");
    disk.file(b"/t/input/rustc", "tool");
    let inputs = vec![input("rustc", "/t/input/rustc", false)];
    let mut supplemental = Table::new();
    supplemental.insert(at("/t"), false);

    let roots = disk.watch(&inputs, &supplemental);

    assert_eq!(roots.get(&at("/t/input/rustc")), Some(&false));
    assert_eq!(roots.get(&at("/t/input")), Some(&false));
    assert_eq!(roots.get(&at("/t")), Some(&false));
}

#[test]
fn inputs_missing_ones_and_links_are_all_watched() {
    let probe = |status: DiskStatus, nearest: Option<&str>| InputProbe {
        text: String::new(),
        status,
        error: String::new(),
        nearest: nearest.map(at),
    };
    let inputs = vec![
        input("directory", "/a/d", false),
        input("file", "/b/f", false),
        input("missing", "/c/x/y", true),
    ];
    let probes = vec![
        probe(DiskStatus::Directory, None),
        probe(DiskStatus::File, None),
        probe(DiskStatus::NotFound, Some("/c/x")),
    ];
    let mut links = Table::new();
    insert_watch_root(&mut links, at("/b"), true);
    insert_watch_root(&mut links, at("/a/d"), false);
    insert_watch_root(&mut links, at("/l"), false);
    assert_eq!(
        entries(external_input_watch_roots(&inputs, &probes, &links).unwrap()),
        pairs(&[
            ("/a", false),
            ("/a/d", true),
            ("/b", true),
            ("/b/f", false),
            ("/c", false),
            ("/c/x", false),
            ("/l", false),
        ]),
    );
    let exists = vec![false, true, true, true];
    assert_eq!(nearest_existing_watch_root(&at("/c/x/y"), &exists), Some(at("/c/x")));
    assert_eq!(nearest_existing_watch_root(&at("/c/x/y"), &vec![false; 4]), None);
}

#[test]
fn watch_roots_stay_recursive_and_refuse_lost_inputs() {
    let mut roots = Table::new();
    insert_watch_root(&mut roots, at("/a"), true);
    insert_watch_root(&mut roots, at("/a"), false);
    insert_watch_root(&mut roots, at("/b"), false);
    insert_watch_root(&mut roots, at("/b"), true);
    insert_with_parent(&mut roots, at("/c/d"), true);
    insert_with_parent(&mut roots, at("e"), false);
    insert_missing_target_watch_roots(&mut roots, Some(at("/f/g")));
    insert_missing_target_watch_roots(&mut roots, None);
    assert_eq!(
        entries(roots),
        pairs(&[
            ("/a", true),
            ("/b", true),
            ("/c", false),
            ("/c/d", true),
            ("/f", false),
            ("/f/g", false),
            ("e", false),
        ]),
    );

    let disk = Disk::new();
    let lost = vec![input("rustc", "/t/rustc", false)];
    let probe = |status: DiskStatus| {
        vec![InputProbe {
            text: "/t/rustc".to_owned(),
            status,
            error: "No such file".to_owned(),
            nearest: disk.nearest(&at("/t/rustc")),
        }]
    };
    assert_eq!(
        external_input_watch_roots(&lost, &probe(DiskStatus::NotFound), &Table::new()).unwrap_err(),
        GraphError::Retry(
            "external graph input /t/rustc is unavailable: No such file; retry the request"
                .to_owned(),
        ),
    );
    let optional = vec![input("rustc", "/t/rustc", true)];
    assert_eq!(
        entries(
            external_input_watch_roots(&optional, &probe(DiskStatus::NotADirectory), &Table::new())
                .unwrap(),
        ),
        pairs(&[("/", false)]),
    );
    assert!(
        external_input_watch_roots(&optional, &probe(DiskStatus::Failed), &Table::new()).is_err()
    );
    // A directory is watched with everything below it.
    assert_eq!(
        entries(
            external_input_watch_roots(&lost, &probe(DiskStatus::Directory), &Table::new()).unwrap(),
        ),
        pairs(&[("/t", false), ("/t/rustc", true)]),
    );
}

#[test]
fn external_input_digest_follows_symlinked_inputs() {
    let mut disk = Disk::new();
    disk.directory("/t/real");
    disk.file(b"/t/real/generated.rs", "pub const GENERATED: u8 = 1;\n");
    disk.link("/t/linked", "/t/real");
    let dependencies = [input("package", "/t", false)];
    let initial = disk.capture(&dependencies).digest;
    disk.file(b"/t/real/generated.rs", "pub const GENERATED: u8 = 2;\n");
    let changed = disk.capture(&dependencies).digest;
    assert_ne!(initial, changed);
}

#[test]
fn external_input_watcher_follows_symlink_chains_and_indirect_dangling_targets() {
    let mut disk = Disk::new();
    disk.directory("/t/input");
    disk.directory("/t/outside");
    disk.directory("/t/real/dependency");
    disk.file(b"/t/real/dependency/lib.rs", "pub fn before() {}\n");
    disk.link("/t/outside/alias", "/t/real/dependency");
    disk.link("/t/input/link", "/t/outside/alias");
    let inputs = vec![input("package", "/t/input", false)];
    let capture = disk.capture(&inputs);
    assert_eq!(capture.symlink_watch_roots.get(&at("/t/real/dependency")), Some(&true));
    assert_eq!(
        disk.watch(&inputs, &capture.symlink_watch_roots).get(&at("/t/real/dependency")),
        Some(&true),
    );

    disk.link("/t/outside/alias", "/t/real/missing.rs");
    let capture = disk.capture(&inputs);
    assert_eq!(capture.symlink_watch_roots.get(&at("/t/real")), Some(&false));
    assert_eq!(
        disk.watch(&inputs, &capture.symlink_watch_roots).get(&at("/t/real")),
        Some(&false),
    );

    disk.remove("/t/outside/alias");
    disk.directory("/t/outside/deep");
    disk.file(b"/t/outside/deep/nested.rs", "pub fn before() {}\n");
    disk.link("/t/outside/repeat", ".");
    disk.link("/t/input/link", "/t/outside/repeat/repeat/deep");
    let capture = disk.capture(&inputs);
    assert_eq!(capture.symlink_watch_roots.get(&at("/t/outside/deep")), Some(&true));

    disk.file(b"/t/outside/blocker", "not a directory");
    disk.link("/t/input/link", "/t/outside/blocker/child");
    let capture = disk.capture(&inputs);
    assert_eq!(capture.symlink_watch_roots.get(&at("/t/outside/blocker")), Some(&false));
    assert_eq!(capture.symlink_watch_roots.get(&at("/t/outside")), Some(&false));
    disk.link("/t/input/link", "/t/outside/blocker/../deep");
    let capture = disk.capture(&inputs);
    assert_ne!(capture.symlink_watch_roots.get(&at("/t/outside/deep")), Some(&true));
}

#[test]
fn external_input_digest_fences_broken_and_cyclic_symlinks_without_failing() {
    let mut disk = Disk::new();
    disk.directory("/t");
    disk.link("/t/broken.rs", "missing.rs");
    disk.link("/t/cycle", ".");
    let inputs = [input("package", "/t", false)];

    let initial = disk.capture(&inputs);
    disk.link("/t/broken.rs", "other-missing.rs");
    let changed = disk.capture(&inputs);

    assert_ne!(initial.digest, changed.digest);
    assert!(initial.symlink_watch_roots.contains(&at("/t")));
}

#[test]
fn external_input_digest_distinguishes_non_utf8_paths() {
    let mut disk = Disk::new();
    disk.directory("/t");
    disk.file(&[b'/', b't', b'/', b'f', 0x80], "first");
    disk.file(&[b'/', b't', b'/', b'f', 0x81], "second");
    let inputs = [input("package", "/t", false)];

    let initial = disk.capture(&inputs).digest;
    disk.file(&[b'/', b't', b'/', b'f', 0x80], "changed-first");
    let changed_first = disk.capture(&inputs).digest;
    disk.file(&[b'/', b't', b'/', b'f', 0x80], "first");
    disk.file(&[b'/', b't', b'/', b'f', 0x81], "changed-second");
    let changed_second = disk.capture(&inputs).digest;

    assert_ne!(initial, changed_first);
    assert_ne!(initial, changed_second);
}

#[test]
fn a_ring_of_links_ends() {
    let mut disk = Disk::new();
    disk.directory("/t/input");
    disk.link("/t/a", "/t/b");
    disk.link("/t/b", "/t/a");
    disk.link("/t/input/link", "/t/a");
    let capture = disk.capture(&[input("package", "/t/input", false)]);
    assert_eq!(
        entries(capture.symlink_watch_roots),
        pairs(&[("/t", false), ("/t/input", false)]),
    );
}

#[test]
fn a_walk_follows_links_up_to_a_number() {
    let mut capture = Capture::new();
    let target = LinkTarget { path: at("next"), bytes: b"next".to_vec(), is_absolute: false };
    let (mut walk, first): (LinkWalk, FsPath) =
        capture_symlink(&mut capture, &input("package", "/t", false), b"link", at("/t/link"), &target);
    assert_eq!(first, at("/t/next"));
    assert_eq!(walk.hops, 0);
    for hop in 0..MAX_SYMLINK_HOPS {
        let link = at(&format!("/t/{hop}"));
        let met = WalkEvent::Link { link: link.clone(), suffix: at("rest") };
        assert_eq!(capture_symlink_target(&mut walk, &mut capture, met), WalkAction::ReadLink);
        let read = WalkEvent::Read {
            link_bytes: bytes(&link),
            link,
            suffix: at("rest"),
            target: LinkTarget { path: at("on"), bytes: b"on".to_vec(), is_absolute: false },
        };
        assert_eq!(
            capture_symlink_target(&mut walk, &mut capture, read),
            WalkAction::Inspect(at("/t/on/rest")),
        );
    }
    assert_eq!(walk.hops, 64);
    let met = WalkEvent::Link { link: at("/t/last"), suffix: at("") };
    assert_eq!(capture_symlink_target(&mut walk, &mut capture, met), WalkAction::Stop);
    assert_eq!(walk.hops, 64);
}

#[test]
fn a_walk_ends_at_what_exists_and_at_a_link_that_was_met() {
    let mut capture = Capture::new();
    let target = LinkTarget { path: at("/u/v"), bytes: b"/u/v".to_vec(), is_absolute: true };
    let package = input("package", "/t", false);
    let (mut walk, first) =
        capture_symlink(&mut capture, &package, b"link", at("/t/link"), &target);
    assert_eq!(first, at("/u/v"));
    let again = WalkEvent::Link { link: at("/t/link"), suffix: at("") };
    assert_eq!(capture_symlink_target(&mut walk, &mut capture, again), WalkAction::Stop);
    let elsewhere = WalkEvent::Link { link: at("/t/link"), suffix: at("more") };
    assert_eq!(capture_symlink_target(&mut walk, &mut capture, elsewhere), WalkAction::ReadLink);
    let found = WalkEvent::Existing { path: at("/u/v"), directory: true };
    assert_eq!(capture_symlink_target(&mut walk, &mut capture, found), WalkAction::Stop);
    let missing = WalkEvent::Missing { nearest: Some(at("/w/x")) };
    assert_eq!(capture_symlink_target(&mut walk, &mut capture, missing), WalkAction::Stop);
    let key = external_input_key_suffix(&external_input_key(&package, b"link"), b"symlink");
    assert_eq!(capture.content.get(&key), Some(&b"/u/v".to_vec()));
    assert_eq!(capture.content.len(), 1);
    assert_eq!(
        entries(capture.roots),
        pairs(&[
            ("/t", false),
            ("/u", false),
            ("/u/v", true),
            ("/w", false),
            ("/w/x", false),
        ]),
    );
}

#[test]
fn inspections_look_at_one_component_at_a_time() {
    let inspected = |text: &str, statuses: &[DiskStatus]| -> Result<SymlinkPath, GraphError> {
        let mut left = statuses.iter();
        let mut step = inspect_symlink_path(at(text));
        loop {
            step = match step {
                InspectStep::Link(inspection) => {
                    inspect_link(inspection, *left.next().unwrap(), "broken")?
                }
                InspectStep::Target(inspection) => {
                    return inspect_target(inspection, *left.next().unwrap(), "broken");
                }
                InspectStep::Done(found) => return Ok(found),
            };
        }
    };
    assert_eq!(
        inspected("/a/../b/c", &[DiskStatus::Directory, DiskStatus::Symlink]),
        Ok(SymlinkPath::Link { path: at("/b"), suffix: at("c") }),
    );
    assert_eq!(
        inspected("/a/b", &[DiskStatus::Directory, DiskStatus::File, DiskStatus::File]),
        Ok(SymlinkPath::Existing { path: at("/a/b"), directory: false }),
    );
    assert_eq!(
        inspected("/a", &[DiskStatus::Directory, DiskStatus::Directory]),
        Ok(SymlinkPath::Existing { path: at("/a"), directory: true }),
    );
    assert_eq!(inspected("/a/b", &[DiskStatus::File]), Ok(SymlinkPath::Missing { path: at("/a/b") }));
    assert_eq!(inspected("/a/b", &[DiskStatus::NotFound]), Ok(SymlinkPath::Missing { path: at("/a/b") }));
    assert_eq!(inspected("/a", &[DiskStatus::NotADirectory]), Ok(SymlinkPath::Missing { path: at("/a") }));
    assert_eq!(inspected("/a", &[DiskStatus::Failed]), Err(GraphError::Failed("broken".to_owned())));
    assert_eq!(
        inspected("/a", &[DiskStatus::Directory, DiskStatus::NotFound]),
        Ok(SymlinkPath::Missing { path: at("/a") }),
    );
    // The last look tolerates only that nothing is there.
    assert_eq!(
        inspected("/a", &[DiskStatus::Directory, DiskStatus::NotADirectory]),
        Err(GraphError::Failed("broken".to_owned())),
    );
    assert_eq!(
        inspect_symlink_path(at("/..")),
        InspectStep::Target(Inspection { path: at("/.."), prefix: at("/"), next: 2 }),
    );
}

#[test]
fn links_are_known_by_their_canonical_parent() {
    assert_eq!(canonical_link_identity(&at("/a/link"), &Some(at("/b"))), at("/b/link"));
    assert_eq!(canonical_link_identity(&at("/a/link"), &None), at("/a/link"));
    assert_eq!(canonical_link_identity(&at("/"), &None), at("/"));
    assert_eq!(canonical_link_identity(&at("/a/.."), &Some(at("/b"))), at("/b"));
}

#[test]
fn entries_are_followed_read_or_given_up() {
    let facts = |failed, has_path, is_link, leads_to_file, is_file| {
        plan_entry(&EntryFacts { failed, has_path, is_link, leads_to_file, is_file })
    };
    let plan = |follow, read, fail| EntryPlan { follow, read, fail };
    assert_eq!(facts(false, true, false, false, true), plan(false, true, false));
    assert_eq!(facts(false, true, false, false, false), plan(false, false, false));
    assert_eq!(facts(false, true, true, true, false), plan(true, true, false));
    assert_eq!(facts(false, true, true, false, false), plan(true, false, false));
    assert_eq!(facts(true, true, true, true, true), plan(true, false, false));
    assert_eq!(facts(true, true, false, false, false), plan(false, false, true));
    assert_eq!(facts(true, false, true, false, false), plan(false, false, true));
}

#[test]
fn paths_are_composed_and_taken_apart() {
    assert_eq!(parent(&at("/")), None);
    assert_eq!(parent(&at("")), None);
    assert_eq!(parent(&at("a")), Some(at("")));
    assert_eq!(nonempty_parent(&at("a")), None);
    assert_eq!(nonempty_parent(&at("/a")), Some(at("/")));
    assert_eq!(join_paths(&at("/a"), &at("./b")), at("/a/b"));
    assert_eq!(join_paths(&at("/a"), &at("/b")), at("/b"));
    assert_eq!(join_paths(&at("/a"), &at("../b")), at("/a/../b"));
    assert_eq!(join_paths(&at(""), &at("b")), at("b"));
    let drive = |rest: &[Component]| {
        let mut whole = vec![Component::Prefix(b"C:".to_vec())];
        whole.extend_from_slice(rest);
        whole
    };
    let below = Component::Normal(b"a".to_vec());
    assert_eq!(
        join_paths(&drive(&[Component::RootDir, below.clone()]), &at("/b")),
        drive(&[Component::RootDir, Component::Normal(b"b".to_vec())]),
    );
    assert_eq!(parent(&drive(&[])), None);
    assert_eq!(file_name(&at("/a/b")), Some(Component::Normal(b"b".to_vec())));
    assert_eq!(file_name(&at("/a/..")), None);
    assert_eq!(path_from(&at("/a/b"), 1), at("a/b"));
}

#[test]
fn keys_put_lengths_before_their_parts() {
    let mut key = Vec::new();
    append_key_part(&mut key, b"ab");
    append_key_part(&mut key, b"");
    assert_eq!(key, [2, 0, 0, 0, 0, 0, 0, 0, b'a', b'b', 0, 0, 0, 0, 0, 0, 0, 0]);
    let package = input("id", "/r", false);
    assert_eq!(
        external_input_key(&package, b"x"),
        [
            2, 0, 0, 0, 0, 0, 0, 0, b'i', b'd', 2, 0, 0, 0, 0, 0, 0, 0, b'/', b'r', 1, 0, 0, 0, 0,
            0, 0, 0, b'x',
        ],
    );
    assert_eq!(external_input_key_suffix(b"k", b"s"), [b'k', 1, 0, 0, 0, 0, 0, 0, 0, b's']);
    // Two inputs that would read the same one behind the other differ.
    assert_ne!(
        external_input_key(&input("a", "b/", false), b"c"),
        external_input_key(&input("a", "b", false), b"/c"),
    );
}

#[test]
fn contents_are_digested_in_order() {
    let mut content = Table::new();
    assert_eq!(digest_content(&content), digest_bytes(b""));
    content.insert(b"b".to_vec(), b"2".to_vec());
    content.insert(b"a".to_vec(), b"".to_vec());
    let mut all = vec![1, 0, 0, 0, 0, 0, 0, 0, b'a', 0, 0, 0, 0, 0, 0, 0, 0];
    all.extend_from_slice(&[1, 0, 0, 0, 0, 0, 0, 0, b'b', 1, 0, 0, 0, 0, 0, 0, 0, b'2']);
    assert_eq!(digest_content(&content), digest_bytes(&all));
}

#[test]
fn captures_hold_files_links_and_gaps() {
    let mut disk = Disk::new();
    disk.directory("/t/input");
    disk.file(b"/t/input/a.rs", "a");
    disk.file(b"/t/b.rs", "b");
    disk.link("/t/input/b", "../b.rs");
    let here = input("here", "/t/input", false);
    let gone = input("gone", "/t/gone", true);
    let mut expected = Table::new();
    let key = |input: &ExternalGraphInput, relative: &[u8], label: &[u8]| {
        external_input_key_suffix(&external_input_key(input, relative), label)
    };
    expected.insert(key(&here, b"a.rs", b"file"), b"a".to_vec());
    expected.insert(key(&here, b"b", b"symlink"), b"../b.rs".to_vec());
    expected.insert(key(&here, b"b", b"file"), b"b".to_vec());
    expected.insert(key(&gone, b"", b"missing"), Vec::new());
    let capture = disk.capture(&[here, gone]);
    assert_eq!(capture.digest, digest_content(&expected));
    assert_eq!(
        entries(capture.symlink_watch_roots),
        pairs(&[("/", false), ("/t", false), ("/t/b.rs", false), ("/t/input", false)]),
    );
}

#[test]
fn inputs_are_listed_in_order_and_once() {
    let package = |id: &str, manifest: &str, is_local: bool, is_member: bool| PackageInput {
        id: id.to_owned(),
        manifest: manifest.to_owned(),
        directory: located(manifest.strip_suffix("/Cargo.toml").unwrap()),
        is_local,
        is_member,
    };
    let workspace = WorkspaceInputs {
        packages: vec![
            package("member", "/w/Cargo.toml", true, true),
            package("path", "/p/Cargo.toml", true, false),
            package("registry", "/r/Cargo.toml", false, false),
        ],
        project_inputs: vec![located("/w/.cargo/config.toml")],
        rustc: located("/bin/rustc"),
        cargo: Some(located("/bin/cargo")),
        rust_lib_src: Some(located("/lib/src")),
        sysroot_server: Some(located("/lib/server")),
    };
    let other = WorkspaceInputs {
        packages: Vec::new(),
        project_inputs: Vec::new(),
        rustc: located("/bin/rustc"),
        cargo: None,
        rust_lib_src: None,
        sysroot_server: None,
    };
    let listed = |inputs: Vec<ExternalGraphInput>| {
        inputs
            .into_iter()
            .map(|input| (input.identity, bytes(&input.root), input.optional))
            .collect::<Vec<_>>()
    };
    let line = |identity: &str, root: &str, optional: bool| {
        (identity.to_owned(), root.as_bytes().to_vec(), optional)
    };
    let workspaces = vec![workspace, other];
    assert_eq!(
        listed(external_graph_inputs(&workspaces, &None)),
        vec![
            line("cargo=/bin/cargo", "/bin/cargo", false),
            line("path-package=path:/p/Cargo.toml", "/p", false),
            line("proc-macro-server=/lib/server", "/lib/server", false),
            line("project-input=/w/.cargo/config.toml", "/w/.cargo/config.toml", true),
            line("rust-lib-src=/lib/src", "/lib/src", false),
            line("rustc=/bin/rustc", "/bin/rustc", false),
        ],
    );
    // The configured server comes before that of the toolchain.
    assert_eq!(
        listed(external_graph_inputs(&workspaces, &Some(located("/srv"))))[2],
        line("proc-macro-server=/srv", "/srv", false),
    );
    // Each listed input is watched.
    let inputs = external_graph_inputs(&workspaces, &None);
    let probes = inputs
        .iter()
        .map(|input| InputProbe {
            text: String::new(),
            status: DiskStatus::File,
            error: String::new(),
            nearest: Some(input.root.clone()),
        })
        .collect();
    let roots = external_input_watch_roots(&inputs, &probes, &Table::new()).unwrap();
    for input in &inputs {
        assert!(roots.contains(&input.root));
    }
}

#[test]
fn captures_do_not_depend_on_the_order_and_repetition_of_inputs() {
    let mut disk = Disk::new();
    disk.directory("/t/a/in");
    disk.directory("/t/b");
    disk.file(b"/t/a/in/one", "1");
    disk.file(b"/t/b/two", "2");
    disk.link("/t/b/link", "../a/in");
    let first = || input("first", "/t/a", false);
    let second = || input("second", "/t/b", false);
    let gone = || input("gone", "/t/c/d", true);
    let found = disk.capture(&[first(), second(), gone()]);
    for inputs in [
        vec![gone(), second(), first()],
        vec![second(), first(), second(), gone(), first(), gone()],
    ] {
        let other = disk.capture(&inputs);
        assert_eq!(other.digest, found.digest);
        assert_eq!(
            entries(other.symlink_watch_roots),
            entries(disk.capture(&[first(), second(), gone()]).symlink_watch_roots),
        );
    }
    // Other bytes, another identity and another link target each give another digest.
    let all = || [first(), second(), gone()];
    disk.link("/t/b/link", "../a");
    let linked = disk.capture(&all()).digest;
    assert_ne!(linked, found.digest);
    disk.file(b"/t/b/two", "3");
    let edited = disk.capture(&all()).digest;
    assert_ne!(edited, linked);
    assert_ne!(disk.capture(&[first(), input("third", "/t/b", false), gone()]).digest, edited);
    assert_ne!(disk.capture(&[first(), second(), input("lost", "/t/c/d", true)]).digest, edited);
}

#[test]
fn removed_inputs_are_captured_as_missing_ones() {
    let mut disk = Disk::new();
    disk.directory("/t/c");
    let inputs = [input("config", "/t/c/config", true)];
    let missing = disk.capture(&inputs);
    assert_eq!(missing.symlink_watch_roots.get(&at("/t/c")), Some(&false));
    disk.directory("/t/c/config");
    disk.file(b"/t/c/config/a", "a");
    assert_ne!(disk.capture(&inputs).digest, missing.digest);
    disk.remove("/t/c/config/a");
    disk.remove("/t/c/config");
    let removed = disk.capture(&inputs);
    assert_eq!(removed.digest, missing.digest);
    assert_eq!(entries(removed.symlink_watch_roots), entries(missing.symlink_watch_roots));
}
