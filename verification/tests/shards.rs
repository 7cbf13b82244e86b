//! The shards that an index gives rise to, and the fingerprints of interfaces.

use graph_snapshot::digest::{digest_bytes, is_digest};
use graph_snapshot::error::GraphError;
use graph_snapshot::files::{
    DiskPath, FileAnalysis, FileId, FileLocation, FileRange, LineColumn, Severity,
    SourceDiagnostic, SourceFile, SourceFiles, TextRange,
};
use graph_snapshot::fingerprints::compute_interface_fingerprints;
use graph_snapshot::moniker::SymbolInformationKind;
use graph_snapshot::nodes::{graph_node_kind, reference_kind};
use graph_snapshot::shards::{BuiltShards, build_shards, shard_digest};
use graph_snapshot::snapshot::{
    GraphSnapshotDiagnostic, GraphSnapshotEvidence, GraphSnapshotNode, GraphSnapshotShard,
    GraphSnapshotUniverse,
};
use graph_snapshot::static_index::{
    ReferenceData, StaticExportData, StaticIndex, StaticIndexedFile, StaticReferenceRole,
    StaticRelation, StaticRelationKind, TokenStaticData, TokenStore,
};
use graph_snapshot::table::Table;
use graph_snapshot::unresolved::coverage;

fn at(file: u32, start: u32, end: u32) -> FileRange {
    FileRange { file_id: FileId(file), range: TextRange::new(start, end) }
}

fn analysis() -> FileAnalysis {
    FileAnalysis {
        root: TextRange::new(0, 100),
        diagnostics: Vec::new(),
        calls: Vec::new(),
        method_calls: Vec::new(),
        macro_calls: Vec::new(),
        record_literals: Vec::new(),
        type_paths: Vec::new(),
        use_paths: Vec::new(),
    }
}

/// A file of one line.
fn source(path: &str, text: &str) -> SourceFile {
    let mut positions = Table::new();
    for offset in 0..=100 {
        positions.insert(offset, LineColumn { line: 0, column: offset });
    }
    SourceFile {
        location: FileLocation {
            name: path.to_owned(),
            disk: Some(DiskPath { path: format!("/w/{path}"), relative: Some(path.to_owned()) }),
        },
        text: Some(text.to_owned()),
        positions: Some(positions),
        analysis: Some(analysis()),
    }
}

fn files(paths: &[&str]) -> SourceFiles {
    let mut files = Table::new();
    for (index, path) in paths.iter().enumerate() {
        files.insert(FileId(index as u32 + 1), source(path, ""));
    }
    files
}

fn token(id: &str, kind: SymbolInformationKind) -> TokenStaticData {
    TokenStaticData {
        stable_id: id.to_owned(),
        qualified_name: Some(format!("m::{id}")),
        exported: false,
        external: false,
        local: false,
        trait_member: false,
        const_function: false,
        documentation: None,
        hover: None,
        definition: None,
        definition_body: None,
        references: Vec::new(),
        moniker: None,
        display_name: Some(id.to_owned()),
        signature: None,
        kind,
    }
}

fn defined(id: &str, name: FileRange, body: FileRange) -> TokenStaticData {
    let mut token = token(id, SymbolInformationKind::Function);
    token.definition = Some(name);
    token.definition_body = Some(body);
    token.references.push(ReferenceData {
        range: name,
        is_definition: true,
        role: StaticReferenceRole::Reference,
        interface_spelling: None,
        export: None,
    });
    token
}

fn reference(range: FileRange, role: StaticReferenceRole) -> ReferenceData {
    ReferenceData { range, is_definition: false, role, interface_spelling: None, export: None }
}

fn index(files: u32, tokens: Vec<TokenStaticData>, relations: Vec<StaticRelation>) -> StaticIndex {
    let mut store = TokenStore::default();
    for token in tokens {
        store.insert(token);
    }
    StaticIndex {
        files: (1..=files)
            .map(|file| StaticIndexedFile {
                file_id: FileId(file),
                folds: Vec::new(),
                tokens: Vec::new(),
                conditional_build: false,
            })
            .collect(),
        tokens: store,
        relations,
        def_map: Default::default(),
        graph: true,
    }
}

fn universe() -> GraphSnapshotUniverse {
    GraphSnapshotUniverse { target: "rust:u".to_owned(), ..GraphSnapshotUniverse::default() }
}

fn texts(list: &[(&str, &str)]) -> Table<String, String> {
    let mut table = Table::new();
    for (key, value) in list {
        table.insert(key.to_string(), value.to_string());
    }
    table
}

fn inputs(count: u32) -> Table<FileId, String> {
    let mut inputs = Table::new();
    for file in 1..=count {
        inputs.insert(FileId(file), format!("digest {file}"));
    }
    inputs
}

fn build(files: &SourceFiles, index: &StaticIndex) -> Result<BuiltShards, GraphError> {
    build_from(files, index, Table::new())
}

fn build_from(
    files: &SourceFiles,
    index: &StaticIndex,
    owners: Table<String, String>,
) -> Result<BuiltShards, GraphError> {
    let fingerprints = compute_interface_fingerprints(files, index);
    let count = index.files.len() as u32;
    build_shards(files, index, &universe(), &fingerprints, &inputs(count), owners)
}

fn edges(shard: &GraphSnapshotShard) -> Vec<(&str, &str, &str)> {
    shard
        .edges
        .iter()
        .map(|edge| (edge.from.as_str(), edge.to.as_str(), edge.kind.as_str()))
        .collect()
}

fn ids(shard: &GraphSnapshotShard) -> Vec<&str> {
    shard.nodes.iter().map(|node| node.id.as_str()).collect()
}

fn position(file: &str, start: u32, end: u32) -> GraphSnapshotEvidence {
    GraphSnapshotEvidence {
        file: file.to_owned(),
        start_line: 1,
        start_column: start + 1,
        end_line: 1,
        end_column: end + 1,
    }
}

const LIB: &str = "rust-file-v1|6:lib.rs";

/// A function that another one and a test call.
fn calls() -> StaticIndex {
    let mut callee = defined("f", at(1, 3, 4), at(1, 0, 20));
    callee.exported = true;
    callee.signature = Some("fn f()".to_owned());
    callee.references.push(reference(at(1, 30, 31), StaticReferenceRole::Call));
    callee.references.push(reference(at(1, 32, 33), StaticReferenceRole::Call));
    callee.references.push(reference(at(1, 50, 51), StaticReferenceRole::Call));
    let caller = defined("g", at(1, 22, 23), at(1, 21, 40));
    let test = defined("t", at(1, 47, 48), at(1, 41, 60));
    let mut attribute = token("test", SymbolInformationKind::Attribute);
    attribute.references.push(reference(at(1, 42, 46), StaticReferenceRole::Decorate));
    index(1, vec![callee, caller, test, attribute], Vec::new())
}

#[test]
fn shards_hold_declarations_files_and_the_edges_between_them() {
    let files = files(&["lib.rs"]);
    let built = build(&files, &calls()).unwrap();
    assert_eq!(built.shards.len(), 1);
    let shard = &built.shards[0];
    assert_eq!(shard.key, "rust:u\0lib.rs");
    assert_eq!(shard.source, "lib.rs");
    assert_eq!(shard.checker_digest, "digest 1");
    assert_eq!(ids(shard), vec!["f", "g", LIB, "t", "test"]);
    assert_eq!(
        shard.nodes[0],
        GraphSnapshotNode {
            id: "f".to_owned(),
            kind: "function".to_owned(),
            name: "f".to_owned(),
            qualified_name: Some("m::f".to_owned()),
            file: "lib.rs".to_owned(),
            external: false,
            exported: true,
            signature: Some("fn f()".to_owned()),
            evidence: Some(position("lib.rs", 3, 4)),
        },
    );
    assert_eq!(
        shard.nodes[2],
        GraphSnapshotNode {
            id: LIB.to_owned(),
            kind: "file".to_owned(),
            name: "lib.rs".to_owned(),
            qualified_name: None,
            file: "lib.rs".to_owned(),
            external: false,
            exported: false,
            signature: None,
            evidence: None,
        },
    );
    // A declaration from outside belongs to the file that refers to it first.
    assert_eq!(shard.nodes[4].file, "bundled:///rust/dependencies");
    assert!(shard.nodes[4].external);
    assert_eq!(shard.nodes[4].evidence, None);
    assert_eq!(
        edges(shard),
        vec![
            ("g", "f", "calls"),
            (LIB, "f", "contains"),
            (LIB, "f", "exports"),
            (LIB, "g", "contains"),
            (LIB, "t", "contains"),
            ("t", "f", "calls"),
            ("t", "f", "tests"),
            ("t", "test", "decorates"),
        ],
    );
    // Of two equal edges the first one stays, with its evidence.
    assert_eq!(shard.edges[0].evidence, Some(position("lib.rs", 30, 31)));
    assert_eq!(shard.edges[1].evidence, Some(position("lib.rs", 3, 4)));
    assert_eq!(shard.edges[6].evidence, Some(position("lib.rs", 50, 51)));
    assert_eq!(shard.coverage, coverage());
    assert_eq!(
        shard.digest,
        shard_digest(
            &shard.key,
            &shard.source,
            &shard.checker_digest,
            &shard.interface_fingerprint,
            &shard.nodes,
            &shard.edges,
            &shard.diagnostics,
            &shard.coverage,
            &shard.unresolved,
        ),
    );
    assert_eq!(
        built.node_owners.into_entries(),
        texts(&[
            ("f", "lib.rs"),
            ("g", "lib.rs"),
            (LIB, "lib.rs"),
            ("t", "lib.rs"),
            ("test", "lib.rs"),
        ])
        .into_entries(),
    );
}

#[test]
fn every_source_has_one_shard_with_its_declarations_and_references() {
    let mut callee = defined("f", at(1, 3, 4), at(1, 0, 20));
    callee.references.push(reference(at(2, 30, 31), StaticReferenceRole::Call));
    callee.references.push(reference(at(3, 0, 1), StaticReferenceRole::Import));
    let caller = defined("g", at(2, 22, 23), at(2, 21, 40));
    let files = files(&["z.rs", "b.rs", "a.rs"]);
    let built = build(&files, &index(3, vec![callee, caller], Vec::new())).unwrap();
    let keys: Vec<&str> = built.shards.iter().map(|shard| shard.key.as_str()).collect();
    assert_eq!(keys, vec!["rust:u\0a.rs", "rust:u\0b.rs", "rust:u\0z.rs"]);
    let digests: Vec<&str> =
        built.shards.iter().map(|shard| shard.checker_digest.as_str()).collect();
    assert_eq!(digests, vec!["digest 3", "digest 2", "digest 1"]);
    assert_eq!(ids(&built.shards[0]), vec!["rust-file-v1|4:a.rs"]);
    assert_eq!(ids(&built.shards[1]), vec!["g", "rust-file-v1|4:b.rs"]);
    assert_eq!(ids(&built.shards[2]), vec!["f", "rust-file-v1|4:z.rs"]);
    assert_eq!(edges(&built.shards[0]), vec![("rust-file-v1|4:a.rs", "f", "imports")]);
    assert!(edges(&built.shards[1]).contains(&("g", "f", "calls")));
}

#[test]
fn the_innermost_declaration_owns_a_reference() {
    let mut inner = defined("inner", at(1, 11, 12), at(1, 10, 20));
    inner.references.push(reference(at(1, 80, 81), StaticReferenceRole::Reference));
    inner.references.push(reference(at(2, 15, 16), StaticReferenceRole::Type));
    let outer = defined("outer", at(1, 2, 3), at(1, 0, 30));
    let mut target = defined("target", at(2, 1, 2), at(2, 0, 5));
    target.references.push(reference(at(1, 15, 16), StaticReferenceRole::Access));
    target.references.push(reference(at(1, 16, 17), StaticReferenceRole::Export));
    let built = build(
        &files(&["lib.rs", "b.rs"]),
        &index(2, vec![inner, outer, target], Vec::new()),
    )
    .unwrap();
    let b = "rust-file-v1|4:b.rs";
    assert_eq!(built.shards[0].source, "b.rs");
    assert_eq!(
        edges(&built.shards[0]),
        vec![(b, "inner", "type_ref"), (b, "target", "contains")],
    );
    // The edges of a reference belong to the file that it stands in.
    assert_eq!(
        edges(&built.shards[1]),
        vec![
            ("inner", "target", "accesses"),
            ("outer", "inner", "contains"),
            (LIB, "inner", "references"),
            (LIB, "outer", "contains"),
            (LIB, "target", "exports"),
        ],
    );
}

#[test]
fn aliases_stand_between_modules_and_declarations() {
    let mut target = defined("target", at(1, 1, 2), at(1, 0, 5));
    target.references.push(ReferenceData {
        export: Some(StaticExportData {
            exporter: "module".to_owned(),
            alias_id: "alias".to_owned(),
            alias: "renamed".to_owned(),
            qualified_name: "m::renamed".to_owned(),
            alias_range: at(1, 22, 29),
        }),
        ..reference(at(1, 10, 16), StaticReferenceRole::Export)
    });
    let built = build(&files(&["lib.rs"]), &index(1, vec![target], Vec::new())).unwrap();
    let shard = &built.shards[0];
    assert_eq!(
        edges(shard),
        vec![
            ("alias", "target", "references"),
            ("module", "alias", "exports"),
            (LIB, "target", "contains"),
        ],
    );
    assert_eq!(shard.edges[0].evidence, Some(position("lib.rs", 10, 16)));
    assert_eq!(shard.edges[1].evidence, Some(position("lib.rs", 22, 29)));
    let alias = &shard.nodes[0];
    assert_eq!((alias.id.as_str(), alias.name.as_str()), ("alias", "renamed"));
    assert_eq!(alias.qualified_name, Some("m::renamed".to_owned()));
    assert!(alias.exported && !alias.external);
    assert_eq!(built.node_owners.get(&"alias".to_owned()), Some(&"lib.rs".to_owned()));
}

fn relation(from: &str, to: &str, name: Option<&str>, kind: StaticRelationKind) -> StaticRelation {
    StaticRelation {
        file_id: FileId(1),
        from: from.to_owned(),
        to: to.to_owned(),
        to_display_name: name.map(str::to_owned),
        to_qualified_name: None,
        to_signature: "trait".to_owned(),
        to_kind: SymbolInformationKind::Trait,
        to_external: true,
        to_exported: false,
        to_definition_file: None,
        kind,
    }
}

#[test]
fn relations_bring_in_their_targets() {
    let here = StaticRelation {
        to_external: false,
        to_definition_file: Some(FileId(2)),
        ..relation("f", "here", Some("Here"), StaticRelationKind::Overrides)
    };
    let elsewhere = StaticRelation { file_id: FileId(9), ..relation("f", "f", None, StaticRelationKind::Extends) };
    let relations = vec![
        relation("f", "g", None, StaticRelationKind::Extends),
        relation("f", "named", Some("Named"), StaticRelationKind::Implements),
        relation("f", "unnamed", None, StaticRelationKind::Implements),
        relation("unknown", "g", None, StaticRelationKind::Implements),
        here,
        elsewhere,
    ];
    let tokens = vec![
        defined("f", at(1, 1, 2), at(1, 0, 5)),
        defined("g", at(1, 7, 8), at(1, 6, 9)),
    ];
    let built =
        build(&files(&["lib.rs", "b.rs"]), &index(2, tokens, relations)).unwrap();
    assert_eq!(
        edges(&built.shards[1]),
        vec![
            ("f", "g", "extends"),
            ("f", "here", "overrides"),
            ("f", "named", "implements"),
            (LIB, "f", "contains"),
            (LIB, "g", "contains"),
        ],
    );
    assert_eq!(ids(&built.shards[0]), vec!["here", "rust-file-v1|4:b.rs"]);
    let named = built.shards[1].nodes.iter().find(|node| node.id == "named").unwrap();
    assert_eq!(named.kind, "interface");
    assert_eq!(named.file, "bundled:///rust/dependencies");
    assert!(named.external);
    assert_eq!(named.signature, Some("trait".to_owned()));
    assert!(!built.shards[0].nodes[0].external);
    assert_eq!(built.shards[0].nodes[0].file, "b.rs");
    assert_eq!(built.node_owners.get(&"here".to_owned()), Some(&"b.rs".to_owned()));
    assert_eq!(built.node_owners.get(&"named".to_owned()), Some(&"lib.rs".to_owned()));
    assert!(!built.node_owners.contains(&"unnamed".to_owned()));
}

#[test]
fn nameless_declarations_have_no_node() {
    let mut nameless = defined("x", at(1, 1, 2), at(1, 0, 5));
    nameless.display_name = None;
    nameless.qualified_name = None;
    nameless.references.push(reference(at(1, 10, 11), StaticReferenceRole::Call));
    let mut last = defined("y", at(1, 7, 8), at(1, 6, 9));
    last.display_name = None;
    last.qualified_name = Some("a::b::c".to_owned());
    let built = build(&files(&["lib.rs"]), &index(1, vec![nameless, last], Vec::new())).unwrap();
    assert_eq!(ids(&built.shards[0]), vec![LIB, "y"]);
    assert_eq!(built.shards[0].nodes[1].name, "c");
    // It is still contained in its file.
    assert_eq!(
        edges(&built.shards[0]),
        vec![(LIB, "x", "contains"), (LIB, "y", "contains")],
    );
}

#[test]
fn known_owners_stay() {
    let mut callee = token("f", SymbolInformationKind::Function);
    callee.definition = Some(at(2, 1, 2));
    callee.references.push(reference(at(1, 10, 11), StaticReferenceRole::Call));
    let built = build_from(
        &files(&["lib.rs"]),
        &index(1, vec![callee], Vec::new()),
        texts(&[("f", "b.rs"), ("other", "c.rs")]),
    )
    .unwrap();
    assert_eq!(ids(&built.shards[0]), vec![LIB]);
    assert_eq!(edges(&built.shards[0]), vec![(LIB, "f", "calls")]);
    assert_eq!(
        built.node_owners.into_entries(),
        texts(&[("f", "b.rs"), ("other", "c.rs"), (LIB, "lib.rs")]).into_entries(),
    );
}

#[test]
fn shards_need_their_inputs_fingerprints_and_analyses() {
    let mut known = files(&["lib.rs"]);
    let calls = calls();
    let none = Table::new();
    assert_eq!(
        build_shards(&known, &calls, &universe(), &none, &Table::new(), Table::new()).unwrap_err(),
        GraphError::Retry(
            "graph source set moved beyond its validated disk inputs; retry".to_owned(),
        ),
    );
    assert_eq!(
        build_shards(&known, &calls, &universe(), &none, &inputs(1), Table::new()).unwrap_err(),
        GraphError::Failed("graph shard lost its interface fingerprint".to_owned()),
    );
    assert_eq!(
        build_from(&known, &calls, texts(&[("f", "gone.rs")])).unwrap_err(),
        GraphError::Failed("graph declaration lost its owning shard".to_owned()),
    );
    let mut unread = source("lib.rs", "");
    unread.analysis = None;
    known.insert(FileId(1), unread);
    assert_eq!(build(&known, &calls).unwrap_err(), GraphError::Cancelled);
    let mut unplaced = source("lib.rs", "");
    unplaced.positions = None;
    known.insert(FileId(1), unplaced);
    assert_eq!(build(&known, &calls).unwrap_err(), GraphError::Cancelled);
}

fn unresolved(shard: &GraphSnapshotShard) -> Vec<(&str, &str, u32)> {
    shard
        .unresolved
        .iter()
        .map(|site| {
            (site.family.as_str(), site.reason.as_str(), site.evidence.start_column - 1)
        })
        .collect()
}

const FAMILIES: [&str; 14] = [
    "accesses", "calls", "contains", "decorates", "dispatches", "exports", "extends", "implements",
    "imports", "instantiates", "overrides", "references", "tests", "type_ref",
];

#[test]
fn every_partial_family_without_sites_is_a_gap() {
    let built = build(&files(&["lib.rs"]), &index(1, Vec::new(), Vec::new())).unwrap();
    assert_eq!(
        unresolved(&built.shards[0]),
        FAMILIES.iter().map(|family| (*family, "provider-gap", 0)).collect::<Vec<_>>(),
    );
    assert_eq!(
        coverage()
            .iter()
            .filter(|family| family.state != "partial")
            .map(|family| (family.family.as_str(), family.state.as_str()))
            .collect::<Vec<_>>(),
        vec![("renders", "unsupported")],
    );
}

#[test]
fn sites_that_nothing_resolves_are_listed() {
    let mut known = files(&["lib.rs"]);
    let mut file = source("lib.rs", "");
    let mut found = analysis();
    let site = |start: u32| TextRange::new(start, start + 2);
    found.calls = vec![site(10), site(12)];
    found.method_calls = vec![site(14)];
    found.macro_calls = vec![site(16)];
    found.record_literals = vec![site(18)];
    found.type_paths = vec![site(20)];
    found.use_paths = vec![site(22), site(22)];
    file.analysis = Some(found);
    known.insert(FileId(1), file);
    let mut method = defined("f", at(1, 1, 2), at(1, 0, 5));
    method.trait_member = true;
    // The first call is resolved; a reference of another family does not resolve the second one.
    method.references.push(reference(at(1, 10, 11), StaticReferenceRole::Call));
    method.references.push(reference(at(1, 12, 13), StaticReferenceRole::Type));
    let built = build(&known, &index(1, vec![method], Vec::new())).unwrap();
    let mut expected = vec![
        ("calls", "analysis-error", 12),
        ("calls", "analysis-error", 14),
        ("calls", "macro-or-generated", 16),
        ("dispatches", "dynamic", 10),
        ("imports", "analysis-error", 22),
        ("instantiates", "analysis-error", 18),
        ("type_ref", "analysis-error", 20),
    ];
    for family in FAMILIES {
        if !expected.iter().any(|(found, _, _)| *found == family) {
            expected.push((family, "provider-gap", 0));
        }
    }
    expected.sort();
    assert_eq!(unresolved(&built.shards[0]), expected);
}

#[test]
fn files_of_several_builds_are_uncertain_in_every_family() {
    let mut conditional = index(1, Vec::new(), Vec::new());
    conditional.files[0].conditional_build = true;
    let built = build(&files(&["lib.rs"]), &conditional).unwrap();
    assert_eq!(
        unresolved(&built.shards[0]),
        FAMILIES.iter().map(|family| (*family, "conditional-build", 0)).collect::<Vec<_>>(),
    );
}

#[test]
fn diagnostics_come_in_order() {
    let mut known = files(&["lib.rs"]);
    let mut file = source("lib.rs", "");
    let mut found = analysis();
    for (start, severity) in [
        (9, Severity::Error),
        (3, Severity::Warning),
        (5, Severity::WeakWarning),
        (7, Severity::Allow),
    ] {
        found.diagnostics.push(SourceDiagnostic {
            range: at(1, start, start + 1),
            code: "E1".to_owned(),
            message: "m".to_owned(),
            severity,
        });
    }
    file.analysis = Some(found);
    known.insert(FileId(1), file);
    let built = build(&known, &index(1, Vec::new(), Vec::new())).unwrap();
    let line = |start: u32, severity: &str| GraphSnapshotDiagnostic {
        file: "lib.rs".to_owned(),
        line: 1,
        column: Some(start + 1),
        code: "E1".to_owned(),
        message: "m".to_owned(),
        severity: Some(severity.to_owned()),
    };
    assert_eq!(
        built.shards[0].diagnostics,
        vec![line(3, "warning"), line(5, "warning"), line(7, "hint"), line(9, "error")],
    );
    // A diagnostic without a position fails the build.
    let mut broken = source("lib.rs", "");
    let mut lost = analysis();
    lost.diagnostics.push(SourceDiagnostic {
        range: at(1, 200, 201),
        code: String::new(),
        message: String::new(),
        severity: Severity::Error,
    });
    broken.analysis = Some(lost);
    known.insert(FileId(1), broken);
    assert_eq!(
        build(&known, &index(1, Vec::new(), Vec::new())).unwrap_err(),
        GraphError::Cancelled,
    );
}

#[test]
fn kinds_have_names() {
    assert_eq!(graph_node_kind(SymbolInformationKind::Macro), "function");
    assert_eq!(graph_node_kind(SymbolInformationKind::Module), "module");
    assert_eq!(graph_node_kind(SymbolInformationKind::Variable), "variable");
    assert_eq!(reference_kind(StaticReferenceRole::Instantiate), "instantiates");
    assert_eq!(reference_kind(StaticReferenceRole::Import), "imports");
}

fn fingerprint(entries: &[&str]) -> String {
    let list = entries
        .iter()
        .map(|entry| format!("\"{}\"", entry.replace('\\', "\\\\").replace('"', "\\\"")))
        .collect::<Vec<_>>()
        .join(",");
    digest_bytes(format!("[{list}]").as_bytes())
}

#[test]
fn fingerprints_cover_what_other_files_can_see() {
    let mut known = files(&["lib.rs", "b.rs"]);
    known.insert(FileId(1), source("lib.rs", "const C: u8 = 1;"));
    let mut constant = defined("c", at(1, 6, 7), at(1, 0, 16));
    constant.kind = SymbolInformationKind::Constant;
    constant.exported = true;
    constant.references.push(ReferenceData {
        interface_spelling: Some("use c".to_owned()),
        ..reference(at(2, 4, 5), StaticReferenceRole::Import)
    });
    constant.references.push(reference(at(2, 8, 9), StaticReferenceRole::Call));
    let mut local = defined("x", at(1, 9, 10), at(1, 9, 10));
    local.local = true;
    let relations = vec![relation("c", "t", None, StaticRelationKind::Extends)];
    let index = index(2, vec![constant, local], relations);
    let found = compute_interface_fingerprints(&known, &index);
    let declared = "{\"exported\":true,\"id\":\"c\",\"kind\":\"Constant\",\
                    \"qualifiedName\":\"m::c\",\"semanticBody\":\"const C: u8 = 1;\",\
                    \"signature\":null}";
    let related = "{\"from\":\"c\",\"relation\":\"Extends\",\"to\":\"t\",\"toDisplayName\":null,\
                   \"toExported\":false,\"toExternal\":true,\"toKind\":\"Trait\",\
                   \"toQualifiedName\":null,\"toSignature\":\"trait\"}";
    let imported =
        "{\"export\":null,\"role\":\"imports\",\"spelling\":\"use c\",\"target\":\"c\"}";
    assert_eq!(
        found.into_entries(),
        vec![
            ("b.rs".to_owned(), fingerprint(&[imported])),
            ("lib.rs".to_owned(), fingerprint(&[declared, related])),
        ],
    );
}

#[test]
fn fingerprints_leave_bodies_of_functions_out() {
    let body = |text: &str, const_function: bool| {
        let mut known = files(&["lib.rs"]);
        known.insert(FileId(1), source("lib.rs", text));
        let mut function = defined("f", at(1, 3, 4), at(1, 0, 10));
        function.const_function = const_function;
        let found = compute_interface_fingerprints(&known, &index(1, vec![function], Vec::new()));
        found.get(&"lib.rs".to_owned()).unwrap().clone()
    };
    assert_eq!(body("fn f() {1}", false), body("fn f() {2}", false));
    assert_ne!(body("fn f() {1}", true), body("fn f() {2}", true));
    assert_eq!(
        compute_interface_fingerprints(&files(&["a.rs"]), &index(1, Vec::new(), Vec::new()))
            .into_entries(),
        vec![("a.rs".to_owned(), fingerprint(&[]))],
    );
}

#[test]
fn fingerprints_do_not_depend_on_positions() {
    let at_offset = |offset: u32| {
        let mut function = defined("f", at(1, offset, offset + 1), at(1, offset, offset + 10));
        function.references.push(ReferenceData {
            interface_spelling: Some("f as g".to_owned()),
            export: Some(StaticExportData {
                exporter: "m".to_owned(),
                alias_id: "a".to_owned(),
                alias: "g".to_owned(),
                qualified_name: "m::g".to_owned(),
                alias_range: at(1, offset + 20, offset + 21),
            }),
            ..reference(at(1, offset + 18, offset + 19), StaticReferenceRole::Export)
        });
        compute_interface_fingerprints(&files(&["lib.rs"]), &index(1, vec![function], Vec::new()))
            .into_entries()
    };
    assert_eq!(at_offset(0), at_offset(40));
}

#[test]
fn fingerprints_do_not_depend_on_order() {
    let import = |text: &str, start: u32| ReferenceData {
        interface_spelling: Some(text.to_owned()),
        ..reference(at(2, start, start + 1), StaticReferenceRole::Import)
    };
    let mut first = defined("a", at(1, 0, 1), at(1, 0, 1));
    first.references = vec![import("use a", 0), import("use a as b", 4)];
    let second = defined("b", at(1, 2, 3), at(1, 2, 3));
    let third = defined("c", at(2, 2, 3), at(2, 2, 3));
    let related = |from: &str| relation(from, "t", None, StaticRelationKind::Extends);
    let known = files(&["lib.rs", "b.rs"]);
    let one = index(
        2,
        vec![first.clone(), second.clone(), third.clone()],
        vec![related("a"), related("b")],
    );
    first.references.reverse();
    let mut other = index(2, vec![third, first, second], vec![related("b"), related("a")]);
    other.files.reverse();
    let found = compute_interface_fingerprints(&known, &one).into_entries();
    assert_eq!(compute_interface_fingerprints(&known, &other).into_entries(), found);
    assert_eq!(found.len(), 2);
    assert!(found.iter().all(|(_, digest)| is_digest(digest)));
}

#[test]
fn fingerprints_change_with_spellings() {
    let spelled = |text: &str| {
        let mut function = defined("f", at(1, 0, 1), at(1, 0, 1));
        function.references.push(ReferenceData {
            interface_spelling: Some(text.to_owned()),
            ..reference(at(2, 0, 1), StaticReferenceRole::Import)
        });
        let found = compute_interface_fingerprints(
            &files(&["lib.rs", "b.rs"]),
            &index(2, vec![function], Vec::new()),
        );
        found.into_entries()
    };
    let one = spelled("use f");
    let other = spelled("use f as g");
    assert_ne!(one[0], other[0]);
    assert_eq!(one[1], other[1]);
}
