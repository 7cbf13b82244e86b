//! What the disk must hold for the analysis to stand, and the universe that a snapshot belongs to.

use graph_snapshot::cache::GraphSnapshotCache;
use graph_snapshot::digest::{digest_bytes, is_digest};
use graph_snapshot::disk::{
    DiskRead, ModelOnDisk, SourceLocation, adopt_source_watcher, checker_disk_digest,
    checker_source_digest, current_source_input_epoch, needs_source_watcher, source_watch_roots,
    validate_project_model_inputs, validate_source_inputs,
};
use graph_snapshot::error::GraphError;
use graph_snapshot::external::LocatedPath;
use graph_snapshot::files::{
    DiskPath, FileId, FileLocation, FileRange, LineColumn, SourceFile, SourceFiles, TextRange,
    evidence, required_evidence, source_path,
};
use graph_snapshot::paths::Component;
use graph_snapshot::snapshot::GraphSnapshotEvidence;
use graph_snapshot::table::Table;
use graph_snapshot::text::{
    after_last_text, decimal_text, join_texts, normalize_path, slice_text, strip_text_prefix,
};
use graph_snapshot::universe::{
    ConfigurationFacts, DependencyFacts, PackageFacts, ProjectInput, RustcIdentity, TargetFacts,
    WorkspaceFacts, cargo_profile, universe,
};

fn retry(message: &str) -> GraphError {
    GraphError::Retry(message.to_owned())
}

fn read(text: &str) -> DiskRead {
    DiskRead::Bytes(text.as_bytes().to_vec())
}

#[test]
fn checker_source_digests_preserve_exact_disk_line_endings() {
    let source = "/t/lib.rs";
    let bytes = b"pub fn answer() -> u8 {\r\n    42\r\n}\r\n";
    let disk = DiskRead::Bytes(bytes.to_vec());

    assert_eq!(
        checker_disk_digest(source, &disk, "pub fn answer() -> u8 {\n    42\n}\n").unwrap(),
        digest_bytes(bytes),
    );
    assert!(checker_disk_digest(source, &disk, "pub fn answer() -> u8 { 0 }\n").is_err());
}

#[test]
fn sources_that_moved_on_disk_are_refused() {
    assert_eq!(
        checker_disk_digest("/t/a.rs", &DiskRead::Unreadable("gone".to_owned()), ""),
        Err(retry("graph source /t/a.rs is unavailable on disk: gone; retry the request")),
    );
    assert_eq!(
        checker_disk_digest("/t/a.rs", &DiskRead::Bytes(vec![b'a', 0xff]), "a"),
        Err(retry(
            "graph source /t/a.rs is not UTF-8: invalid utf-8 sequence of 1 bytes from index 1; \
             retry the request",
        )),
    );
    assert_eq!(
        checker_disk_digest("/t/a.rs", &read("b"), "a"),
        Err(retry("graph source /t/a.rs moved beyond the analyzer VFS; retry the request")),
    );
    // A carriage return that stands alone is part of the text.
    assert!(checker_disk_digest("/t/a.rs", &read("a\rb\r"), "a\rb\r").is_ok());
    assert!(checker_disk_digest("/t/a.rs", &read("a\rb\r"), "ab").is_err());
    assert!(checker_disk_digest("/t/a.rs", &read("a\r\r\nb"), "a\r\nb").is_ok());
}

fn source(name: &str, disk: Option<DiskPath>, text: Option<&str>) -> SourceFile {
    SourceFile {
        location: FileLocation { name: name.to_owned(), disk },
        text: text.map(str::to_owned),
        positions: None,
        analysis: None,
    }
}

fn on_disk(path: &str, relative: Option<&str>) -> Option<DiskPath> {
    Some(DiskPath { path: path.to_owned(), relative: relative.map(str::to_owned) })
}

#[test]
fn sources_are_validated_one_by_one() {
    let mut files: SourceFiles = Table::new();
    files.insert(FileId(1), source("a.rs", on_disk("/t/a.rs", None), Some("a")));
    files.insert(FileId(2), source("b.rs", on_disk("/t/b.rs", None), Some("b")));
    files.insert(FileId(3), source("//virtual.rs", None, Some("v")));
    files.insert(FileId(4), source("d.rs", on_disk("/t/d.rs", None), None));

    let valid =
        validate_source_inputs(&files, &vec![FileId(2), FileId(1)], &vec![read("b"), read("a")])
            .unwrap();
    assert_eq!(
        valid.into_entries(),
        vec![(FileId(1), digest_bytes(b"a")), (FileId(2), digest_bytes(b"b"))],
    );
    assert_eq!(
        validate_source_inputs(&files, &vec![FileId(1), FileId(2)], &vec![read("a"), read("x")])
            .unwrap_err(),
        retry("graph source /t/b.rs moved beyond the analyzer VFS; retry the request"),
    );
    assert_eq!(
        checker_source_digest(&files, FileId(3), &read("v")),
        Err(retry("graph source //virtual.rs has no disk identity; retry after saving it")),
    );
    assert_eq!(checker_source_digest(&files, FileId(4), &read("")), Err(GraphError::Cancelled));
    assert_eq!(checker_source_digest(&files, FileId(5), &read("")), Err(GraphError::Cancelled));
}

#[test]
fn the_directories_of_sources_are_watched() {
    let name = |text: &str| Component::Normal(text.as_bytes().to_vec());
    let location = |path: Vec<Component>, text: &str| SourceLocation {
        name: text.to_owned(),
        disk: Some(LocatedPath { path, bytes: Vec::new(), text: text.to_owned() }),
    };
    let file = |file: &str| {
        location(vec![Component::RootDir, name("t"), name(file)], &format!("/t/{file}"))
    };
    assert_eq!(
        source_watch_roots(&vec![file("a.rs"), file("b.rs")]).unwrap().into_entries(),
        vec![(vec![Component::RootDir, name("t")], ())],
    );
    assert_eq!(
        source_watch_roots(&vec![
            file("a.rs"),
            SourceLocation { name: "//v.rs".to_owned(), disk: None },
        ])
        .unwrap_err(),
        retry("graph source //v.rs has no disk identity; retry after saving it"),
    );
    assert_eq!(
        source_watch_roots(&vec![location(vec![Component::RootDir], "/")]).unwrap_err(),
        retry("graph source / has no watchable parent; retry"),
    );
}

#[test]
fn source_events_count_only_while_sources_are_watched() {
    let mut cache = GraphSnapshotCache::default();
    assert!(needs_source_watcher(&cache));
    assert_eq!(
        current_source_input_epoch(&mut cache, 1),
        Err(retry("graph source watcher is unavailable for an incremental snapshot; retry")),
    );
    assert_eq!(cache.source_input_event_epoch, 0);
    assert_eq!(adopt_source_watcher(&mut cache, 3), 3);
    assert!(!needs_source_watcher(&cache));
    assert_eq!(cache.source_input_event_epoch, 3);
    assert_eq!(current_source_input_epoch(&mut cache, 4), Ok(4));
    assert_eq!(cache.source_input_event_epoch, 4);
    cache.source_input_watcher_stale = true;
    assert!(needs_source_watcher(&cache));
}

fn workspace(root: &str) -> WorkspaceFacts {
    WorkspaceFacts {
        root: root.to_owned(),
        toolchain: None,
        descriptor: "descriptor".to_owned(),
        project_inputs: Vec::new(),
        lockfile: None,
        target: "Ok(\"x86_64\")".to_owned(),
        rustc_cfg: Vec::new(),
        cfg_overrides: "{}".to_owned(),
        set_test: false,
        rustc_version: RustcIdentity::Known("rustc 1.0".to_owned()),
        packages: None,
    }
}

fn configuration() -> ConfigurationFacts {
    ConfigurationFacts {
        extra_args: Vec::new(),
        cargo_config: "config".to_owned(),
        ignored_proc_macros: Vec::new(),
        environment: Vec::new(),
        expand_proc_macros: true,
        proc_macros_loaded: false,
        run_build_scripts: true,
        proc_macro_server: None,
        version: "1.0".to_owned(),
        commit: None,
    }
}

#[test]
fn project_models_are_refused_once_their_files_moved() {
    let mut cargo = workspace("/w");
    cargo.project_inputs = vec![
        ProjectInput { path: "/w/Cargo.toml".to_owned(), bytes: Some(b"a".to_vec()) },
        ProjectInput { path: "/w/.cargo/config".to_owned(), bytes: None },
    ];
    cargo.lockfile = Some(b"lock".to_vec());
    cargo.packages = Some(Vec::new());
    let now = |first: Option<&[u8]>, second: Option<&[u8]>, lockfile: Option<&[u8]>| {
        vec![ModelOnDisk {
            project_inputs: vec![first.map(|b| b.to_vec()), second.map(|b| b.to_vec())],
            lockfile: lockfile.map(|b| b.to_vec()),
        }]
    };
    let workspaces = vec![cargo];
    let lock: Option<&[u8]> = Some(b"lock");
    assert_eq!(validate_project_model_inputs(&workspaces, &now(Some(b"a"), None, lock)), Ok(()));
    assert_eq!(
        validate_project_model_inputs(&workspaces, &now(Some(b"b"), Some(b"c"), None)),
        Err(retry(
            "/w/Cargo.toml moved beyond the immutable project model; reload and retry",
        )),
    );
    assert_eq!(
        validate_project_model_inputs(&workspaces, &now(Some(b"a"), Some(b""), lock)),
        Err(retry(
            "/w/.cargo/config moved beyond the immutable project model; reload and retry",
        )),
    );
    assert_eq!(
        validate_project_model_inputs(&workspaces, &now(Some(b"a"), None, None)),
        Err(retry("Cargo.lock moved beyond the immutable project model; reload and retry")),
    );
    // The lock file of a workspace that cargo does not know is not looked at.
    let mut detached = workspaces;
    detached[0].packages = None;
    assert_eq!(validate_project_model_inputs(&detached, &now(Some(b"a"), None, None)), Ok(()));
}

#[test]
fn profiles_come_from_the_arguments() {
    let profile = |args: &[&str]| {
        cargo_profile(&args.iter().map(|arg| arg.to_string()).collect::<Vec<String>>())
    };
    assert_eq!(profile(&[]), "dev");
    assert_eq!(profile(&["--profile", "a", "--release"]), "release");
    assert_eq!(profile(&["--profile=b", "--profile", "a"]), "a");
    assert_eq!(profile(&["--profile=b", "--profile=c"]), "b");
    assert_eq!(profile(&["--profile"]), "dev");
    assert_eq!(profile(&["--profile", "--profile", "x"]), "--profile");
}

#[test]
fn universes_list_everything_that_the_analysis_depends_on() {
    let mut facts = configuration();
    facts.extra_args = vec!["--release".to_owned()];
    facts.environment =
        vec![("B".to_owned(), "2".to_owned()), ("A".to_owned(), "1".to_owned())];
    facts.ignored_proc_macros = vec![
        ("z".to_owned(), vec!["b".to_owned(), "a\"".to_owned()]),
        ("y".to_owned(), Vec::new()),
    ];
    facts.proc_macro_server = Some("C:\\server".to_owned());
    facts.commit = Some("abc".to_owned());
    let mut cargo = workspace("C:\\w");
    cargo.toolchain = Some("1.90.0".to_owned());
    cargo.project_inputs = vec![
        ProjectInput { path: "C:\\w\\Cargo.toml".to_owned(), bytes: Some(b"toml".to_vec()) },
        ProjectInput { path: "config".to_owned(), bytes: None },
    ];
    cargo.lockfile = Some(b"lock".to_vec());
    cargo.rustc_cfg = vec!["unix".to_owned(), "unix".to_owned()];
    cargo.packages = Some(vec![PackageFacts {
        id: "p 0.1.0".to_owned(),
        name: "p".to_owned(),
        version: "0.1.0".to_owned(),
        manifest: "C:\\w\\Cargo.toml".to_owned(),
        edition: "Edition2021".to_owned(),
        active_features: vec!["std".to_owned(), "default".to_owned()],
        dependencies: vec![
            DependencyFacts {
                name: "z".to_owned(),
                package_id: "z 1".to_owned(),
                kind: "Normal".to_owned(),
            },
            DependencyFacts {
                name: "a".to_owned(),
                package_id: "a 1".to_owned(),
                kind: "Dev".to_owned(),
            },
        ],
        targets: vec![TargetFacts {
            name: "p".to_owned(),
            kind: "Lib".to_owned(),
            root: "C:\\w\\src\\lib.rs".to_owned(),
            required_features: vec!["y".to_owned(), "x".to_owned()],
        }],
    }]);
    let mut other = workspace("/v");
    other.toolchain = Some("1.90.0".to_owned());
    other.set_test = true;
    let found = universe(&facts, &vec![cargo, other], &Ok("inputs".to_owned())).unwrap();

    let sha = |text: &str| digest_bytes(text.as_bytes());
    let expected = vec![
        format!("cargo-config-sha256={}", sha("config")),
        format!("cargo-lock-sha256={}", sha("lock")),
        "cargo-lock-sha256=missing".to_owned(),
        "cfg-overrides={}".to_owned(),
        "cfg=unix".to_owned(),
        format!("environment-sha256={}", sha("A=1\0B=2")),
        "expand-proc-macros=true".to_owned(),
        "external-inputs-sha256=inputs".to_owned(),
        format!(
            "ignored-proc-macros-sha256={}",
            sha("[(\"y\", []), (\"z\", [\"a\\\"\", \"b\"])]"),
        ),
        "package-id=p 0.1.0;name=p@0.1.0;manifest=C:/w/Cargo.toml;edition=Edition2021;\
         features=default,std;dependencies=a:a 1:Dev,z:z 1:Normal"
            .to_owned(),
        "proc-macro-server=C:/server".to_owned(),
        "proc-macros-loaded=false".to_owned(),
        "profile=release".to_owned(),
        format!("project-input=C:/w/Cargo.toml;sha256={}", sha("toml")),
        "project-input=config;sha256=missing".to_owned(),
        "run-build-scripts=true".to_owned(),
        "rustc-version=rustc 1.0".to_owned(),
        "set-test=false".to_owned(),
        "set-test=true".to_owned(),
        "target=Ok(\"x86_64\")".to_owned(),
        "target=p;kind=Lib;root=C:/w/src/lib.rs;required-features=x,y".to_owned(),
        format!("workspace-descriptor-sha256={}", sha("descriptor")),
    ];
    let mut sorted = expected.clone();
    sorted.sort();
    assert_eq!(found.configurations, sorted);
    assert_eq!(found.workspace_roots, vec!["/v".to_owned(), "C:/w".to_owned()]);
    assert_eq!(found.toolchains, vec!["1.90.0".to_owned()]);
    let lines = sorted
        .iter()
        .map(|line| format!("\"{}\"", line.replace('"', "\\\"")))
        .collect::<Vec<_>>()
        .join(",");
    let digest = sha(&format!(
        "{{\"configurations\":[{lines}],\"producer\":{{\"commit\":\"abc\",\
         \"name\":\"samchon-rust-analyzer\",\"version\":\"1.0\"}},\
         \"toolchains\":[\"1.90.0\"],\"workspaceRoots\":[\"/v\",\"C:/w\"]}}",
    ));
    assert_eq!(found.digest, digest);
    assert_eq!(found.target, format!("rust:{digest}"));
}

#[test]
fn universes_do_not_depend_on_the_order_of_the_environment() {
    let mut first = configuration();
    first.environment = vec![("A".to_owned(), "1".to_owned()), ("B".to_owned(), "2".to_owned())];
    let mut second = configuration();
    second.environment = vec![("B".to_owned(), "2".to_owned()), ("A".to_owned(), "1".to_owned())];
    let workspaces = vec![workspace("/w")];
    let inputs = Ok(String::new());
    let found = universe(&first, &workspaces, &inputs).unwrap();
    assert_eq!(universe(&second, &workspaces, &inputs).unwrap(), found);
    assert!(found.configurations.windows(2).all(|pair| pair[0] < pair[1]));
    assert!(found.configurations.contains(&"profile=dev".to_owned()));
    assert!(
        found.configurations.contains(&"proc-macro-server=sysroot-or-unavailable".to_owned())
    );
    second.environment[0].1 = "3".to_owned();
    assert_ne!(universe(&second, &workspaces, &inputs).unwrap().digest, found.digest);
}

#[test]
fn universes_need_their_inputs_and_compilers() {
    let mut unknown = workspace("/w");
    unknown.rustc_version = RustcIdentity::Unavailable("no rustc".to_owned());
    assert_eq!(
        universe(&configuration(), &vec![workspace("/v"), unknown.clone()], &Ok(String::new())),
        Err(retry(
            "exact rustc identity was unavailable in the project model: no rustc; reload and retry",
        )),
    );
    assert_eq!(
        universe(&configuration(), &vec![unknown], &Err("not captured".to_owned())),
        Err(retry(
            "external graph inputs are unavailable: not captured; retry the request",
        )),
    );
}

#[test]
fn texts_are_cut_and_joined() {
    assert_eq!(normalize_path("a\\b/c\\"), "a/b/c/");
    assert_eq!(after_last_text("a::b::c", "::"), "c");
    assert_eq!(after_last_text("abc", "::"), "abc");
    assert_eq!(after_last_text("a::", "::"), "");
    assert_eq!(after_last_text(":::", "::"), "");
    assert_eq!(strip_text_prefix("--profile=x", "--profile="), Some("x".to_owned()));
    assert_eq!(strip_text_prefix("--pro", "--profile="), None);
    assert_eq!(decimal_text(0), "0");
    assert_eq!(decimal_text(u64::MAX), "18446744073709551615");
    assert_eq!(join_texts(&vec!["a".to_owned(), String::new(), "b".to_owned()], ","), "a,,b");
    assert_eq!(join_texts(&Vec::new(), ","), "");
    assert_eq!(slice_text("a\u{e9}b", 1, 3), Some("\u{e9}".to_owned()));
    assert_eq!(slice_text("a\u{e9}b", 2, 3), None);
    assert_eq!(slice_text("ab", 1, 3), None);
    assert_eq!(slice_text("ab", 2, 1), None);
    assert_eq!(slice_text("ab", 2, 2), Some(String::new()));
}

#[test]
fn evidence_gives_positions_from_one_on() {
    let mut positions = Table::new();
    positions.insert(0, LineColumn { line: 0, column: 0 });
    positions.insert(4, LineColumn { line: 1, column: 3 });
    positions.insert(9, LineColumn { line: u32::MAX, column: 0 });
    let mut files: SourceFiles = Table::new();
    let mut file = source("a.rs", on_disk("C:\\w\\src\\a.rs", Some("src\\a.rs")), Some(""));
    file.positions = Some(positions);
    files.insert(FileId(1), file);
    files.insert(FileId(2), source("b.rs", on_disk("/t\\b.rs", None), None));
    files.insert(FileId(3), source("//virtual\\c.rs", None, None));
    let range = |file: u32, start: u32, end: u32| FileRange {
        file_id: FileId(file),
        range: TextRange::new(start, end),
    };
    let found = GraphSnapshotEvidence {
        file: source_path(&files, FileId(1)),
        start_line: 1,
        start_column: 1,
        end_line: 2,
        end_column: 4,
    };
    assert_eq!(evidence(&files, range(1, 0, 4)), Some(found.clone()));
    assert_eq!(required_evidence(&files, range(1, 0, 4)), Ok(found));
    assert_eq!(evidence(&files, range(1, 0, 5)), None);
    assert_eq!(evidence(&files, range(1, 0, 9)), None);
    assert_eq!(required_evidence(&files, range(2, 0, 0)), Err(GraphError::Cancelled));
    assert_eq!(evidence(&files, range(7, 0, 0)), None);
    assert_eq!(source_path(&files, FileId(1)), "src/a.rs");
    assert_eq!(source_path(&files, FileId(2)), "/t/b.rs");
    assert_eq!(source_path(&files, FileId(3)), "//virtual\\c.rs");
}

#[test]
fn universes_do_not_depend_on_the_order_and_repetition_of_workspaces() {
    let mut other = workspace("/v");
    other.toolchain = Some("stable".to_owned());
    other.packages = Some(Vec::new());
    let inputs = Ok("captured".to_owned());
    let list = vec![workspace("/w"), other.clone()];
    let found = universe(&configuration(), &list, &inputs).unwrap();
    for workspaces in [
        vec![other.clone(), workspace("/w")],
        vec![workspace("/w"), other.clone(), workspace("/w"), other.clone()],
    ] {
        assert_eq!(universe(&configuration(), &workspaces, &inputs).unwrap(), found);
    }
    assert_eq!(found.workspace_roots, vec!["/v".to_owned(), "/w".to_owned()]);
    assert_eq!(found.toolchains, vec!["stable".to_owned()]);
    assert_eq!(found.target, format!("rust:{}", found.digest));
    assert!(is_digest(&found.digest));
    let fewer = universe(&configuration(), &vec![workspace("/w")], &inputs).unwrap();
    assert_ne!(fewer.digest, found.digest);
}
