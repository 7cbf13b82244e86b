//! Indexing source files of which the front end tells what every token refers to.

use std::collections::{BTreeMap, BTreeSet};

use graph_snapshot::exports::{FileCrate, ModuleScope, Visibility, VisibilityChain};
use graph_snapshot::files::{FileId, FileRange, TextRange};
use graph_snapshot::identity::{
    Container, CrateFacts, CrateRoot, Declaration, DeclarationSyntax, NameSite, NamedDeclaration,
    Place, RootPath,
};
use graph_snapshot::indexing::{
    Analysis, DefinitionFacts, ExpandedToken, FileFacts, NavigationTarget, Site, TokenFacts,
};
use graph_snapshot::modules::{ModuleFacts, ModuleTree, VendoredLibrariesConfig, VfsPath};
use graph_snapshot::moniker::{
    Moniker, MonikerDescriptor, MonikerDescriptorKind, MonikerIdentifier, MonikerResult,
    PackageInformation, SymbolInformationKind,
};
use graph_snapshot::moniker::SymbolInformationKind::{
    AssociatedType, Attribute, Constant, Enum, EnumMember, Field, Function, Macro, Method, Module,
    Parameter, Struct, Trait, Type, Variable,
};
use graph_snapshot::relations::{
    AssocItem, AssocItemKind, Home, ImplFacts, ImplementedTrait, RelationEnd, TraitFacts,
    semantic_relations,
};
use graph_snapshot::roles::{Ancestor, Covering, NodeKind};
use graph_snapshot::static_index::{
    StaticIndex, StaticReferenceRole, StaticRelationKind, TokenId, TokenStaticData, TokenStore,
};

const WORKSPACE: &str = "/workspace";

/// The range of the given occurrence of a word.
fn word(text: &str, wanted: &str, occurrence: usize) -> TextRange {
    let mut seen = 0;
    let mut start = 0;
    let bytes = text.as_bytes();
    while start < bytes.len() {
        let mut end = start;
        while end < bytes.len() && (bytes[end].is_ascii_alphanumeric() || bytes[end] == b'_') {
            end += 1;
        }
        if end > start {
            if &text[start..end] == wanted {
                if seen == occurrence {
                    return TextRange::new(start as u32, end as u32);
                }
                seen += 1;
            }
            start = end;
        } else {
            start += 1;
        }
    }
    panic!("there is no {wanted} number {occurrence}")
}

/// The ranges that lines of carets point out in the lines above them.
fn annotations(text: &str) -> BTreeSet<(u32, u32)> {
    let mut ranges = BTreeSet::new();
    let mut above = 0;
    let mut start = 0;
    for line in text.split_inclusive('\n') {
        let carets = line.trim_start();
        if carets.starts_with("//") && carets.contains('^') {
            let bytes = line.as_bytes();
            let mut column = 0;
            while column < bytes.len() {
                let mut end = column;
                while end < bytes.len() && bytes[end] == b'^' {
                    end += 1;
                }
                if end > column {
                    ranges.insert(((above + column) as u32, (above + end) as u32));
                    column = end;
                } else {
                    column += 1;
                }
            }
        } else {
            above = start;
        }
        start += line.len();
    }
    ranges
}

fn local_root(path: &str, relative: &str) -> CrateRoot {
    CrateRoot {
        is_local: true,
        path: RootPath::Disk {
            path: path.to_owned(),
            relative: Some(relative.to_owned()),
            components: path.split('/').map(str::to_owned).collect(),
        },
        directory: Some("workspace".to_owned()),
        graph_identity: None,
    }
}

fn krate(name: &str, relative: &str) -> CrateFacts {
    CrateFacts {
        root: local_root(&format!("{WORKSPACE}/{relative}"), relative),
        display_name: format!("Some({name:?})"),
        version: "None".to_owned(),
        origin: "Local".to_owned(),
        edition: "Edition2024".to_owned(),
        cfg: "CfgOptions([])".to_owned(),
        dependencies: Vec::new(),
    }
}

fn moniker(path: &[&str]) -> MonikerResult {
    MonikerResult::Moniker(plain_moniker(path))
}

fn plain_moniker(path: &[&str]) -> Moniker {
    Moniker {
        identifier: MonikerIdentifier {
            crate_name: "main".to_owned(),
            description: path
                .iter()
                .map(|name| MonikerDescriptor {
                    name: name.to_string(),
                    desc: MonikerDescriptorKind::Namespace,
                })
                .collect(),
        },
        package_information: PackageInformation {
            name: "main".to_owned(),
            repo: Some("https://example.com/main.git".to_owned()),
            version: Some("1.2.3".to_owned()),
        },
    }
}

fn public() -> Visibility {
    Visibility { chain: VisibilityChain { own: Some(true), owners: vec![] }, implementor: None }
}

fn hidden() -> Visibility {
    Visibility {
        chain: VisibilityChain { own: Some(true), owners: vec![Some(false)] },
        implementor: None,
    }
}

fn declaration(kind: SymbolInformationKind, name: &str) -> Declaration {
    Declaration {
        kind,
        name: Some(name.to_owned()),
        krate: Some(krate("main", "lib.rs")),
        syntax: None,
        owner: None,
        container: None,
    }
}

/// A declaration whose name stands at a range of a file.
fn definition(
    handle: u64,
    kind: SymbolInformationKind,
    name: &str,
    path: &[&str],
    at: Option<(u32, TextRange)>,
) -> DefinitionFacts {
    DefinitionFacts {
        handle,
        declaration: declaration(kind, name),
        monikers: vec![Some(moniker(path))],
        nav: at.map(|(file, range)| NavigationTarget {
            file_id: FileId(file),
            focus_range: Some(range),
            full_range: range,
            library: false,
            root: TextRange::new(0, 100_000),
            covering: Covering::Node(vec![]),
        }),
        visibility: public(),
        const_function: false,
        builtin_type: false,
        docs: None,
        hover: String::new(),
        display_name: Some(name.to_owned()),
        signature: format!("{name} signature"),
    }
}

fn node(kind: NodeKind, range: TextRange) -> Ancestor {
    Ancestor {
        kind,
        range,
        part: None,
        receiver: None,
        visibility: None,
        text: String::new(),
        rename: None,
    }
}

fn token(range: TextRange, ancestors: Vec<Ancestor>, definitions: Vec<DefinitionFacts>) -> TokenFacts {
    TokenFacts {
        site: Site { range, ancestors: ancestors.clone(), scope: None },
        expansions: vec![ExpandedToken { range, ancestors, definitions }],
    }
}

fn file(id: u32, text: &str, tokens: Vec<TokenFacts>) -> FileFacts {
    FileFacts {
        file_id: FileId(id),
        crates: vec![FileCrate { facts: krate("main", "lib.rs"), name: Some("main".to_owned()) }],
        displayed: true,
        folds: vec![],
        root: Site {
            range: TextRange::new(0, text.len() as u32),
            ancestors: vec![],
            scope: None,
        },
        module: None,
        tokens,
    }
}

fn module(id: u32, path: &str, library: bool) -> ModuleTree {
    ModuleTree {
        module: ModuleFacts {
            file_id: FileId(id),
            library,
            path: Some(VfsPath::Virtual(path.to_owned())),
            traits: vec![],
            impls: vec![],
        },
        children: vec![],
    }
}

fn analysis(file: FileFacts) -> Analysis {
    let id = file.file_id.index();
    Analysis { roots: vec![module(id, "/workspace/lib.rs", false)], files: vec![file] }
}

fn graph(analysis: &Analysis) -> StaticIndex {
    StaticIndex::compute_graph(analysis, VendoredLibrariesConfig::Excluded)
}

fn check_all_ranges(
    analysis: &Analysis,
    expected: &BTreeMap<u32, BTreeSet<(u32, u32)>>,
    config: VendoredLibrariesConfig<'_>,
) {
    let index = StaticIndex::compute(analysis, config);
    let mut found: BTreeMap<u32, BTreeSet<(u32, u32)>> = BTreeMap::new();
    for file in index.files {
        for (range, _) in file.tokens {
            if range.start != 0 {
                found.entry(file.file_id.index()).or_default().insert((range.start, range.end));
            }
        }
    }
    assert_eq!(&found, expected);
}

fn check_definitions(analysis: &Analysis, expected: &BTreeSet<(u32, u32)>) {
    let root = VfsPath::Virtual(WORKSPACE.to_owned());
    let index =
        StaticIndex::compute(analysis, VendoredLibrariesConfig::Included { workspace_root: &root });
    let found: BTreeSet<(u32, u32)> = index
        .tokens
        .iter()
        .into_iter()
        .filter_map(|(_, token)| token.definition)
        .filter(|at| at.range.start != 0)
        .map(|at| (at.range.start, at.range.end))
        .collect();
    assert_eq!(&found, expected);
}

fn check_references(analysis: &Analysis, expected: &BTreeSet<(u32, u32)>) {
    let root = VfsPath::Virtual(WORKSPACE.to_owned());
    let index =
        StaticIndex::compute(analysis, VendoredLibrariesConfig::Included { workspace_root: &root });
    let found: BTreeSet<(u32, u32)> = index
        .tokens
        .iter()
        .into_iter()
        .flat_map(|(_, token)| token.references)
        .filter(|reference| !reference.is_definition && reference.range.range.start != 0)
        .map(|reference| (reference.range.range.start, reference.range.range.end))
        .collect();
    assert_eq!(&found, expected);
}

#[test]
fn field_initialization() {
    let text = r#"
struct Point {
    x: f64,
     //^^^
    y: f64,
     //^^^
}
    fn foo() {
        let x = 5.;
        let y = 10.;
        let mut p = Point { x, y };
                  //^^^^^   ^  ^
        p.x = 9.;
      //^ ^
        p.y = 10.;
      //^ ^
    }
"#;
    let at = |name: &str, n: usize| Some((1, word(text, name, n)));
    let point = || definition(1, Struct, "Point", &["Point"], at("Point", 0));
    let x = || definition(2, Field, "x", &["Point", "x"], at("x", 0));
    let y = || definition(3, Field, "y", &["Point", "y"], at("y", 0));
    let number = || definition(4, Type, "f64", &["f64"], None);
    let foo = || definition(5, Function, "foo", &["foo"], at("foo", 0));
    let local_x = || definition(6, Variable, "x", &[], at("x", 1));
    let local_y = || definition(7, Variable, "y", &[], at("y", 1));
    let p = || definition(8, Variable, "p", &[], at("p", 0));
    let plain = |name: &str, n: usize, definitions| token(word(text, name, n), vec![], definitions);
    let tokens = vec![
        plain("Point", 0, vec![point()]),
        plain("x", 0, vec![x()]),
        plain("f64", 0, vec![number()]),
        plain("y", 0, vec![y()]),
        plain("f64", 1, vec![number()]),
        plain("foo", 0, vec![foo()]),
        plain("x", 1, vec![local_x()]),
        plain("y", 1, vec![local_y()]),
        plain("p", 0, vec![p()]),
        plain("Point", 1, vec![point()]),
        plain("x", 2, vec![x(), local_x()]),
        plain("y", 2, vec![y(), local_y()]),
        plain("p", 1, vec![p()]),
        plain("x", 3, vec![x()]),
        plain("p", 2, vec![p()]),
        plain("y", 3, vec![y()]),
    ];
    check_references(&analysis(file(1, text, tokens)), &annotations(text));
}

#[test]
fn struct_and_enum() {
    let facts = |text: &str| {
        let at = |name: &str, n: usize| Some((1, word(text, name, n)));
        let foo = || definition(1, Struct, "Foo", &["Foo"], at("Foo", 0));
        let tokens = vec![
            token(word(text, "Foo", 0), vec![], vec![foo()]),
            token(word(text, "E", 0), vec![], vec![definition(2, Enum, "E", &["E"], at("E", 0))]),
            token(
                word(text, "X", 0),
                vec![],
                vec![definition(3, EnumMember, "X", &["E", "X"], at("X", 0))],
            ),
            token(word(text, "Foo", 1), vec![], vec![foo()]),
        ];
        analysis(file(1, text, tokens))
    };
    let root = VfsPath::Virtual(WORKSPACE.to_owned());
    let all = r#"
struct Foo;
     //^^^
enum E { X(Foo) }
   //^   ^ ^^^
"#;
    check_all_ranges(
        &facts(all),
        &BTreeMap::from([(1, annotations(all))]),
        VendoredLibrariesConfig::Included { workspace_root: &root },
    );
    let definitions = r#"
struct Foo;
     //^^^
enum E { X(Foo) }
   //^   ^
"#;
    check_definitions(&facts(definitions), &annotations(definitions));
    let references = r#"
struct Foo;
enum E { X(Foo) }
   //      ^^^
"#;
    check_references(&facts(references), &annotations(references));
}

#[test]
fn multi_crate() {
    let text = r#"

use foo::func;

fn main() {
 //^^^^
    func();
}
"#;
    let main = definition(
        1,
        SymbolInformationKind::Function,
        "main",
        &["main"],
        Some((1, word(text, "main", 0))),
    );
    let tokens = vec![token(word(text, "main", 0), vec![], vec![main])];
    let facts = Analysis {
        roots: vec![
            module(1, "/workspace/main.rs", false),
            module(2, "/workspace/foo/lib.rs", false),
        ],
        files: vec![file(1, text, tokens), file(2, "\npub func() {\n\n}\n", vec![])],
    };
    check_definitions(&facts, &annotations(text));
}

/// Three crates, of which one is a library outside of the workspace and one a library inside it.
fn crates_with_libraries(texts: [&str; 3]) -> Analysis {
    let names = ["Main", "ExternalLibrary", "VendoredLibrary"];
    let mut files = Vec::new();
    for (i, text) in texts.iter().enumerate() {
        let id = i as u32 + 1;
        let declared = definition(
            i as u64,
            SymbolInformationKind::Struct,
            names[i],
            &[names[i]],
            Some((id, word(text, names[i], 0))),
        );
        let number = definition(9, SymbolInformationKind::Type, "i32", &["i32"], None);
        files.push(file(
            id,
            text,
            vec![
                token(word(text, names[i], 0), vec![], vec![declared]),
                token(word(text, "i32", 0), vec![], vec![number]),
            ],
        ));
    }
    Analysis {
        roots: vec![
            module(1, "/workspace/main.rs", false),
            module(2, "/external/lib.rs", true),
            module(3, "/workspace/vendored/lib.rs", true),
        ],
        files,
    }
}

#[test]
fn vendored_crate() {
    let main = "struct Main(i32);\n     //^^^^ ^^^\n";
    let vendored = "struct VendoredLibrary(i32);\n     //^^^^^^^^^^^^^^^ ^^^\n";
    let facts = crates_with_libraries([main, "struct ExternalLibrary(i32);\n", vendored]);
    let root = VfsPath::Virtual(WORKSPACE.to_owned());
    check_all_ranges(
        &facts,
        &BTreeMap::from([(1, annotations(main)), (3, annotations(vendored))]),
        VendoredLibrariesConfig::Included { workspace_root: &root },
    );
}

#[test]
fn vendored_crate_excluded() {
    let main = "struct Main(i32);\n     //^^^^ ^^^\n";
    let facts = crates_with_libraries([
        main,
        "struct ExternalLibrary(i32);\n",
        "struct VendoredLibrary(i32);\n",
    ]);
    check_all_ranges(
        &facts,
        &BTreeMap::from([(1, annotations(main))]),
        VendoredLibrariesConfig::Excluded,
    );
}

#[test]
fn derives() {
    let text = r#"
#[rustc_builtin_macro]
//^^^^^^^^^^^^^^^^^^^
pub macro Copy {}
        //^^^^
#[derive(Copy)]
//^^^^^^ ^^^^
struct Hello(i32);
     //^^^^^ ^^^
"#;
    let copy = || definition(2, Macro, "Copy", &["Copy"], Some((1, word(text, "Copy", 0))));
    let tokens = vec![
        token(
            word(text, "rustc_builtin_macro", 0),
            vec![],
            vec![definition(1, Attribute, "rustc_builtin_macro", &[], None)],
        ),
        token(word(text, "Copy", 0), vec![], vec![copy()]),
        token(
            word(text, "derive", 0),
            vec![],
            vec![definition(3, Attribute, "derive", &["derive"], None)],
        ),
        token(word(text, "Copy", 1), vec![], vec![copy()]),
        token(
            word(text, "Hello", 0),
            vec![],
            vec![definition(4, Struct, "Hello", &["Hello"], Some((1, word(text, "Hello", 0))))],
        ),
        token(word(text, "i32", 0), vec![], vec![definition(5, Type, "i32", &["i32"], None)]),
    ];
    let root = VfsPath::Virtual(WORKSPACE.to_owned());
    check_all_ranges(
        &analysis(file(1, text, tokens)),
        &BTreeMap::from([(1, annotations(text))]),
        VendoredLibrariesConfig::Included { workspace_root: &root },
    );
}

/// The names of a file in order, with the kinds of the nodes that they belong to.
fn name_sites(text: &str, list: &[(&str, usize, &str)]) -> Vec<NameSite> {
    list.iter()
        .map(|(name, n, kind)| NameSite {
            text: name.to_string(),
            parent_kind: Some(kind.to_string()),
            range: word(text, name, *n),
        })
        .collect()
}

/// A local declaration inside `run`.
fn local(
    handle: u64,
    kind: SymbolInformationKind,
    text: &str,
    name: &str,
    names: &[NameSite],
) -> DefinitionFacts {
    let site = names.iter().find(|site| site.text == name).unwrap().clone();
    let range = site.range;
    let whole = TextRange::new(0, text.len() as u32);
    let start = text.find("pub fn run").unwrap() as u32;
    let mut facts = definition(handle, kind, name, &[], Some((1, range)));
    facts.monikers = vec![Some(MonikerResult::Local {
        enclosing_moniker: Some(plain_moniker(&["impl", "Service", "run"])),
    })];
    facts.declaration.syntax = Some(DeclarationSyntax {
        file_id: FileId(1),
        root: whole,
        owner: Some(FileRange {
            file_id: FileId(1),
            range: TextRange::new(start, text.len() as u32 - 2),
        }),
        place: Place::Name(site, names.to_vec()),
    });
    facts
}

fn service_identities(text: &str, order: [&str; 2]) -> Vec<(Option<String>, String)> {
    let names = name_sites(
        text,
        &[
            ("Service", 0, "STRUCT"),
            ("run", 0, "FN"),
            ("input", 0, "IDENT_PAT"),
            (order[0], 0, "IDENT_PAT"),
            (order[1], 0, "IDENT_PAT"),
        ],
    );
    let service = definition(1, Struct, "Service", &["Service"], Some((1, names[0].range)));
    let run =
        definition(2, Method, "run", &["impl", "Service", "run"], Some((1, names[1].range)));
    let tokens = vec![
        token(names[0].range, vec![], vec![service]),
        token(names[1].range, vec![], vec![run]),
        token(names[2].range, vec![], vec![local(3, Parameter, text, "input", &names)]),
        token(word(text, "output", 0), vec![], vec![local(4, Variable, text, "output", &names)]),
        token(word(text, "scratch", 0), vec![], vec![local(5, Variable, text, "scratch", &names)]),
    ];
    let mut identities: Vec<(Option<String>, String)> = graph(&analysis(file(1, text, tokens)))
        .tokens
        .iter()
        .into_iter()
        .filter_map(|(_, token)| {
            token.definition?;
            Some((token.qualified_name, token.stable_id))
        })
        .collect();
    identities.sort();
    identities
}

#[test]
fn graph_identity_is_semantic_and_position_invariant() {
    let compact = service_identities(
        r#"
pub struct Service;
impl Service {
    pub fn run(&self, input: i32) -> i32 {
        let output = input + 1;
        let scratch = 0;
        let _ = scratch;
        output
    }
}
"#,
        ["output", "scratch"],
    );
    let moved = service_identities(
        r#"

pub struct Service;

impl Service {
    pub fn run(
        &self,
        input: i32,
    ) -> i32 {
        let scratch = 0;
        let _ = scratch;
        let output = input + 1;
        output
    }
}
"#,
        ["scratch", "output"],
    );

    assert_eq!(compact, moved);
    assert!(compact.iter().all(|(_, id)| id.starts_with("rust-hir-v1|")));
    assert!(
        compact.iter().any(|(name, _)| name.as_deref() == Some("impl::Service::run")),
        "{compact:#?}"
    );
    assert!(
        compact.iter().any(|(name, _)| name.as_deref() == Some("impl::Service::run::input")),
        "{compact:#?}"
    );
}

fn end(kind: SymbolInformationKind, name: &str, path: &[&str]) -> RelationEnd {
    RelationEnd {
        named: NamedDeclaration {
            declaration: declaration(kind, name),
            moniker: Some(moniker(path)),
        },
        display_name: Some(name.to_owned()),
        signature: format!("{name} signature"),
        home: Some(Home { file_id: FileId(1), library: false }),
        visibility: public(),
    }
}

fn item(kind: AssocItemKind, name: &str, path: &[&str]) -> AssocItem {
    AssocItem {
        kind,
        name: Some(name.to_owned()),
        definition: end(SymbolInformationKind::Method, name, path),
    }
}

fn related(traits: Vec<TraitFacts>, impls: Vec<ImplFacts>) -> Analysis {
    let mut root = module(1, "/workspace/lib.rs", false);
    root.module.traits = traits;
    root.module.impls = impls;
    Analysis { roots: vec![root], files: vec![file(1, "", vec![])] }
}

#[test]
fn graph_relations_come_from_hir_traits_and_impls() {
    let parent = || end(Trait, "Parent", &["Parent"]);
    let child = || end(Trait, "Child", &["Child"]);
    let render = || end(Trait, "Render", &["Render"]);
    let service = || end(Struct, "Service", &["Service"]);
    let facts = related(
        vec![
            TraitFacts { definition: parent(), supertraits: vec![] },
            TraitFacts { definition: child(), supertraits: vec![parent()] },
            TraitFacts { definition: render(), supertraits: vec![] },
        ],
        vec![
            ImplFacts {
                implemented: Some(ImplementedTrait { definition: child(), items: vec![] }),
                implementor: Some(service()),
                items: vec![],
            },
            ImplFacts {
                implemented: Some(ImplementedTrait {
                    definition: render(),
                    items: vec![item(AssocItemKind::Function, "render", &["Render", "render"])],
                }),
                implementor: Some(service()),
                items: vec![item(
                    AssocItemKind::Function,
                    "render",
                    &["impl", "Render", "render"],
                )],
            },
        ],
    );
    let relations = graph(&facts).relations;

    assert!(relations.iter().any(|relation| relation.kind == StaticRelationKind::Extends));
    assert!(relations.iter().any(|relation| relation.kind == StaticRelationKind::Implements));
    assert!(relations.iter().any(|relation| relation.kind == StaticRelationKind::Overrides));
    assert!(relations.iter().all(|relation| {
        relation.from.starts_with("rust-hir-v1|") && relation.to.starts_with("rust-hir-v1|")
    }));
    assert!(relations.iter().all(|relation| {
        relation.to_display_name.is_some()
            && relation.to_qualified_name.is_some()
            && !relation.to_signature.is_empty()
            && !relation.to_external
            && relation.to_exported
            && relation.to_definition_file.is_some()
    }));
    assert_eq!(relations.len(), 4);
}

#[test]
fn graph_relations_describe_external_endpoints() {
    let mut debug = end(SymbolInformationKind::Trait, "Debug", &["fmt", "Debug"]);
    debug.home = Some(Home { file_id: FileId(7), library: true });
    let facts = related(
        vec![],
        vec![ImplFacts {
            implemented: Some(ImplementedTrait { definition: debug, items: vec![] }),
            implementor: Some(end(SymbolInformationKind::Struct, "Value", &["Value"])),
            items: vec![],
        }],
    );
    let relations = graph(&facts).relations;
    let relation = relations
        .iter()
        .find(|relation| relation.kind == StaticRelationKind::Implements)
        .unwrap();

    assert_eq!(relation.to_display_name.as_deref(), Some("Debug"));
    assert_eq!(relation.to_kind, SymbolInformationKind::Trait);
    assert!(relation.to_qualified_name.as_deref().is_some_and(|name| name.ends_with("Debug")));
    assert!(relation.to_signature.contains("Debug"));
    assert!(relation.to_external);
    assert!(relation.to_exported);
    assert!(relation.to_definition_file.is_some());
}

fn execute_ids(files: Vec<FileFacts>) -> BTreeSet<String> {
    let roots =
        files.iter().map(|file| module(file.file_id.index(), "/workspace/lib.rs", false)).collect();
    graph(&Analysis { roots, files })
        .tokens
        .iter()
        .into_iter()
        .filter(|(_, token)| {
            token.definition.is_some() && token.display_name.as_deref() == Some("execute")
        })
        .map(|(_, token)| token.stable_id)
        .collect()
}

/// A file of a crate of its own, with a function in it.
fn file_with(id: u32, name: &str, relative: &str, function: &str) -> FileFacts {
    let text = format!("pub fn {function}() {{}}\n");
    let mut declared = definition(
        id as u64,
        SymbolInformationKind::Function,
        function,
        &[function],
        Some((id, word(&text, function, 0))),
    );
    declared.declaration.krate = Some(krate(name, relative));
    let mut facts = file(id, &text, vec![token(word(&text, function, 0), vec![], vec![declared])]);
    facts.crates =
        vec![FileCrate { facts: krate(name, relative), name: Some(name.to_owned()) }];
    facts
}

#[test]
fn graph_identity_includes_crate_root_context() {
    let ids = execute_ids(vec![
        file_with(1, "one", "one/lib.rs", "execute"),
        file_with(2, "two", "two/lib.rs", "execute"),
    ]);
    assert_eq!(ids.len(), 2, "{ids:#?}");
    assert!(ids.iter().all(|id| id.contains("crate-context")));
}

#[test]
fn graph_identity_does_not_change_when_a_local_target_is_added() {
    let before = execute_ids(vec![file_with(1, "main", "src/lib.rs", "execute")]);
    let after = execute_ids(vec![
        file_with(1, "main", "src/lib.rs", "execute"),
        file_with(2, "bin", "src/main.rs", "main"),
    ]);
    assert_eq!(before.len(), 1);
    assert_eq!(before, after);
}

#[test]
fn graph_identity_namespaces_tuple_fields_by_their_owner() {
    let text = "pub fn first(value: (u8,)) -> u8 { value.0 }\n\
                pub fn second(value: (u8,)) -> u8 { value.0 }\n";
    let field = |handle: u64, owner: &str| {
        let mut facts = definition(handle, SymbolInformationKind::Field, "0", &[], None);
        facts.monikers = vec![None];
        facts.declaration.krate = None;
        facts.declaration.owner = Some(Box::new(NamedDeclaration {
            declaration: declaration(SymbolInformationKind::Function, owner),
            moniker: Some(moniker(&[owner])),
        }));
        facts
    };
    let tokens = vec![
        token(word(text, "0", 0), vec![], vec![field(1, "first")]),
        token(word(text, "0", 1), vec![], vec![field(2, "second")]),
    ];
    let ids = graph(&analysis(file(1, text, tokens)))
        .tokens
        .iter()
        .into_iter()
        .filter(|(_, token)| {
            token.display_name.as_deref() == Some("0")
                && token.kind == SymbolInformationKind::Field
        })
        .map(|(_, token)| token.stable_id)
        .collect::<BTreeSet<_>>();

    assert_eq!(ids.len(), 2, "{ids:#?}");
    assert!(ids.iter().all(|id| id.contains("enclosing-owner")), "{ids:#?}");
}

fn use_item(visibility: Option<&str>, tree: &str, rename: (String, TextRange)) -> Vec<Ancestor> {
    let whole = TextRange::new(0, 1000);
    let mut segment = node(NodeKind::PathSegment, whole);
    segment.text = String::new();
    let mut use_tree = node(NodeKind::UseTree, whole);
    use_tree.text = tree.to_owned();
    use_tree.rename = Some(rename);
    let mut item = node(NodeKind::Use, whole);
    item.visibility = visibility.map(str::to_owned);
    vec![segment, node(NodeKind::Path, whole), use_tree, item]
}

#[test]
fn graph_exports_follow_effective_visibility_and_public_uses() {
    let text = r#"
mod private { pub fn hidden() {} }
pub fn exposed() {}
pub use private::hidden as alias;
use private::hidden as local_alias;
"#;
    let hidden_function = || {
        let mut facts = definition(
            1,
            Function,
            "hidden",
            &["private", "hidden"],
            Some((1, word(text, "hidden", 0))),
        );
        facts.visibility = hidden();
        facts
    };
    let exposed =
        definition(2, Function, "exposed", &["exposed"], Some((1, word(text, "exposed", 0))));
    let scope = || {
        Some(ModuleScope {
            declaration: declaration(SymbolInformationKind::Module, "main"),
            monikers: vec![Some(moniker(&["crate"]))],
            name: None,
        })
    };
    let alias = ("alias".to_owned(), word(text, "alias", 0));
    let local_alias = ("local_alias".to_owned(), word(text, "local_alias", 0));
    let mut export = token(
        word(text, "hidden", 1),
        use_item(Some("pub"), "private::hidden as alias", alias),
        vec![hidden_function()],
    );
    export.site.scope = scope();
    let mut import = token(
        word(text, "hidden", 2),
        use_item(None, "private::hidden as local_alias", local_alias),
        vec![hidden_function()],
    );
    import.site.scope = scope();
    let tokens = vec![
        token(word(text, "hidden", 0), vec![], vec![hidden_function()]),
        token(word(text, "exposed", 0), vec![], vec![exposed]),
        export,
        import,
    ];
    let index = graph(&analysis(file(1, text, tokens)));
    let tokens: Vec<TokenStaticData> =
        index.tokens.iter().into_iter().map(|(_, token)| token).collect();
    let hidden = tokens.iter().find(|token| token.display_name.as_deref() == Some("hidden"));
    let exposed = tokens.iter().find(|token| token.display_name.as_deref() == Some("exposed"));

    assert!(!hidden.unwrap().exported);
    assert!(exposed.unwrap().exported);
    assert!(hidden.unwrap().references.iter().any(|reference| {
        !reference.is_definition && reference.role == StaticReferenceRole::Export
    }));
    let export =
        hidden.unwrap().references.iter().find_map(|reference| reference.export.as_ref()).unwrap();
    assert_eq!(export.alias, "alias");
    assert!(export.qualified_name.ends_with("::alias"));
    assert!(export.exporter.starts_with("rust-hir-v1|"));
    assert!(export.alias_id.starts_with("rust-export-v1|"));
    assert!(hidden.unwrap().references.iter().any(|reference| {
        reference.role == StaticReferenceRole::Import
            && reference
                .interface_spelling
                .as_deref()
                .is_some_and(|spelling| spelling.contains("as local_alias"))
    }));
    assert_eq!(export.alias_range.range, word(text, "alias", 0));
    assert!(export.alias_id.ends_with(&format!(
        "|5:alias=5:alias|6:target={}:{}",
        hidden.unwrap().stable_id.len(),
        hidden.unwrap().stable_id
    )));
}

#[test]
fn graph_does_not_export_public_inherent_items_of_private_types() {
    let text = r#"
struct Private;
impl Private { pub fn hidden() {} }
mod private { pub struct Nested; }
impl private::Nested { pub fn nested_hidden() {} }
pub struct Public;
impl Public { pub fn exposed() {} }
"#;
    let method = |handle: u64, name: &str, implementor: VisibilityChain| {
        let mut facts = definition(
            handle,
            SymbolInformationKind::Method,
            name,
            &["impl", name],
            Some((1, word(text, name, 0))),
        );
        facts.visibility.implementor = Some(implementor);
        token(word(text, name, 0), vec![], vec![facts])
    };
    let tokens = vec![
        method(1, "hidden", VisibilityChain { own: Some(false), owners: vec![Some(true)] }),
        method(2, "nested_hidden", VisibilityChain { own: Some(true), owners: vec![Some(false)] }),
        method(3, "exposed", VisibilityChain { own: Some(true), owners: vec![None, Some(true)] }),
    ];
    let index = graph(&analysis(file(1, text, tokens)));
    let exported = |name: &str| {
        index
            .tokens
            .iter_ref()
            .into_iter()
            .find(|(_, token)| token.display_name.as_deref() == Some(name))
            .unwrap()
            .1
            .exported
    };
    assert!(!exported("hidden"));
    assert!(!exported("nested_hidden"));
    assert!(exported("exposed"));
}

#[test]
fn graph_marks_const_functions_for_interface_fingerprinting() {
    let text = "pub const fn answer() -> u8 { 42 }\npub fn runtime() -> u8 { 42 }\n";
    let function = |handle: u64, name: &str, is_const: bool| {
        let mut facts = definition(
            handle,
            SymbolInformationKind::Function,
            name,
            &[name],
            Some((1, word(text, name, 0))),
        );
        facts.const_function = is_const;
        token(word(text, name, 0), vec![], vec![facts])
    };
    let tokens = vec![function(1, "answer", true), function(2, "runtime", false)];
    let index = graph(&analysis(file(1, text, tokens)));
    let constant = |name: &str| {
        index
            .tokens
            .iter_ref()
            .into_iter()
            .find(|(_, token)| token.display_name.as_deref() == Some(name))
            .unwrap()
            .1
            .const_function
    };
    assert!(constant("answer"));
    assert!(!constant("runtime"));
}

/// A method of a trait or of an implementation.
fn method(handle: u64, text: &str, name: &str, n: usize, container: Container) -> DefinitionFacts {
    let mut facts = definition(
        handle,
        SymbolInformationKind::Method,
        name,
        &["Service", name],
        Some((1, word(text, name, n))),
    );
    facts.declaration.container = Some(container);
    facts
}

fn in_trait(name: &str) -> Container {
    Container::Trait(Box::new(NamedDeclaration {
        declaration: declaration(SymbolInformationKind::Trait, name),
        moniker: Some(moniker(&[name])),
    }))
}

fn in_impl(self_type: &str, name: Option<&str>) -> Container {
    Container::Impl {
        self_type: self_type.to_owned(),
        implemented: name.map(|name| {
            Box::new(NamedDeclaration {
                declaration: declaration(SymbolInformationKind::Trait, name),
                moniker: Some(moniker(&[name])),
            })
        }),
    }
}

#[test]
fn graph_marks_default_trait_methods_as_trait_members() {
    let text = "pub trait Render { fn render(&self) {} }\n\
                pub fn call(value: &dyn Render) { value.render(); }\n";
    let render = |n| token(
        word(text, "render", n),
        vec![],
        vec![method(1, text, "render", 0, in_trait("Render"))],
    );
    let index = graph(&analysis(file(1, text, vec![render(0), render(1)])));
    let tokens: Vec<TokenStaticData> =
        index.tokens.iter().into_iter().map(|(_, token)| token).collect();
    let render = tokens.iter().find(|token| {
        token.definition.is_some() && token.display_name.as_deref() == Some("render")
    });
    assert!(render.unwrap().trait_member);
    assert_eq!(render.unwrap().references.len(), 2);
}

#[test]
fn graph_identity_separates_inherent_and_trait_methods_with_the_same_name() {
    let text = r#"
pub trait First { fn execute(&self); }
pub trait Second { fn execute(&self); }
pub struct Service;
impl Service { pub fn execute(&self) {} }
impl First for Service { fn execute(&self) {} }
impl Second for Service { fn execute(&self) {} }
"#;
    let containers = [
        in_trait("First"),
        in_trait("Second"),
        in_impl("Service", None),
        in_impl("Service", Some("First")),
        in_impl("Service", Some("Second")),
    ];
    let tokens = containers
        .into_iter()
        .enumerate()
        .map(|(i, container)| {
            token(
                word(text, "execute", i),
                vec![],
                vec![method(i as u64, text, "execute", i, container)],
            )
        })
        .collect();
    let ids = graph(&analysis(file(1, text, tokens)))
        .tokens
        .iter()
        .into_iter()
        .filter(|(_, token)| {
            token.definition.is_some() && token.display_name.as_deref() == Some("execute")
        })
        .map(|(_, token)| token.stable_id)
        .collect::<BTreeSet<_>>();

    assert_eq!(ids.len(), 5, "{ids:#?}");
    assert!(ids.iter().any(|id| id.contains("implemented-trait")));
}

/// The nodes around the name in a call of a method.
fn method_call(name: TextRange, receiver: TextRange) -> Vec<Ancestor> {
    let mut call = node(NodeKind::MethodCallExpr, TextRange::new(receiver.start, name.end));
    call.part = Some(name);
    call.receiver = Some(receiver);
    vec![node(NodeKind::Other, name), call]
}

#[test]
fn stock_static_index_avoids_graph_only_enrichment() {
    let text = r#"
pub trait Render { fn render(&self); }
pub struct Service;
impl Render for Service { fn render(&self) {} }
pub fn run() { Service.render(); }
"#;
    let name = word(text, "render", 2);
    let receiver = word(text, "Service", 2);
    let service = definition(
        2,
        SymbolInformationKind::Struct,
        "Service",
        &["Service"],
        Some((1, word(text, "Service", 0))),
    );
    let mut facts = related(
        vec![TraitFacts {
            definition: end(SymbolInformationKind::Trait, "Render", &["Render"]),
            supertraits: vec![end(SymbolInformationKind::Trait, "Base", &["Base"])],
        }],
        vec![],
    );
    facts.files = vec![file(
        1,
        text,
        vec![
            token(receiver, method_call(name, receiver), vec![service]),
            token(
                name,
                method_call(name, receiver),
                vec![method(1, text, "render", 0, in_trait("Render"))],
            ),
        ],
    )];
    let index = StaticIndex::compute(&facts, VendoredLibrariesConfig::Excluded);

    assert!(index.relations.is_empty());
    assert!(index.tokens.iter_ref().iter().all(|(_, token)| token.stable_id.is_empty()));
    assert!(
        index
            .tokens
            .iter_ref()
            .iter()
            .flat_map(|(_, token)| &token.references)
            .all(|reference| reference.role == StaticReferenceRole::Reference)
    );
    assert_eq!(graph(&facts).relations.len(), 1);
}

/// The nodes around a segment of a path. A qualifier stands in a path that is part of another one.
fn path(range: TextRange, qualifier: bool, outer: Vec<Ancestor>) -> Vec<Ancestor> {
    let mut nodes = vec![
        node(NodeKind::Other, range),
        node(NodeKind::PathSegment, range),
        node(NodeKind::Path, range),
    ];
    if qualifier {
        nodes.push(node(NodeKind::Path, range));
    }
    nodes.extend(outer);
    nodes
}

#[test]
fn graph_reference_roles_do_not_promote_path_qualifiers() {
    let text = r#"
pub mod api {
    pub struct Service;
    impl Service { pub fn create() -> Self { Self } }
    pub fn execute() {}
}
pub fn run() {
    api::execute();
    let _: api::Service = api::Service::create();
}
"#;
    let at = |name: &str, n: usize| Some((1, word(text, name, n)));
    let api = || definition(1, Module, "api", &["api"], at("api", 0));
    let execute = || definition(2, Function, "execute", &["api", "execute"], at("execute", 0));
    let service = || definition(3, Struct, "Service", &["api", "Service"], at("Service", 0));
    let create = || definition(4, Method, "create", &["api", "create"], at("create", 0));
    let call = |callee: TextRange| {
        let mut call = node(NodeKind::CallExpr, callee);
        call.part = Some(callee);
        vec![node(NodeKind::PathExpr, callee), call]
    };
    let join = |from: TextRange, to: TextRange| TextRange::new(from.start, to.end);
    let first = join(word(text, "api", 1), word(text, "execute", 1));
    let typed = join(word(text, "api", 2), word(text, "Service", 2));
    let second = join(word(text, "api", 3), word(text, "create", 1));
    let tokens = vec![
        token(word(text, "api", 1), path(word(text, "api", 1), true, call(first)), vec![api()]),
        token(
            word(text, "execute", 1),
            path(word(text, "execute", 1), false, call(first)),
            vec![execute()],
        ),
        token(
            word(text, "api", 2),
            path(word(text, "api", 2), true, vec![node(NodeKind::PathType, typed)]),
            vec![api()],
        ),
        token(
            word(text, "Service", 2),
            path(word(text, "Service", 2), false, vec![node(NodeKind::PathType, typed)]),
            vec![service()],
        ),
        token(word(text, "api", 3), path(word(text, "api", 3), true, call(second)), vec![api()]),
        token(
            word(text, "Service", 3),
            path(word(text, "Service", 3), true, call(second)),
            vec![service()],
        ),
        token(
            word(text, "create", 1),
            path(word(text, "create", 1), false, call(second)),
            vec![create()],
        ),
    ];
    let index = graph(&analysis(file(1, text, tokens)));
    let roles = |name: &str| {
        index
            .tokens
            .iter_ref()
            .iter()
            .filter(|(_, token)| token.display_name.as_deref() == Some(name))
            .flat_map(|(_, token)| token.references.iter().map(|reference| reference.role))
            .collect::<Vec<_>>()
    };

    let api_roles = roles("api");
    assert!(api_roles.iter().all(|role| *role == StaticReferenceRole::Reference));
    assert!(roles("execute").contains(&StaticReferenceRole::Call));
    assert!(roles("Service").contains(&StaticReferenceRole::Type));
    assert!(roles("create").contains(&StaticReferenceRole::Call));
}

#[test]
fn graph_marks_files_shared_by_multiple_crate_contexts() {
    let mut shared = file_with(3, "one", "one.rs", "shared");
    shared
        .crates
        .push(FileCrate { facts: krate("two", "two.rs"), name: Some("two".to_owned()) });
    let mut one = module(1, "/workspace/one.rs", false);
    one.children.push(module(3, "/workspace/shared.rs", false));
    let mut two = module(2, "/workspace/two.rs", false);
    two.children.push(module(3, "/workspace/shared.rs", false));
    let facts = Analysis {
        roots: vec![one, two],
        files: vec![file(1, "", vec![]), file(2, "", vec![]), shared],
    };
    let index = graph(&facts);

    assert!(index.files.iter().any(|file| file.conditional_build));
    assert_eq!(index.files.len(), 3);
    let stock = StaticIndex::compute(&facts, VendoredLibrariesConfig::Excluded);
    assert!(stock.files.iter().all(|file| !file.conditional_build));
}

#[test]
fn graph_reference_roles_keep_macro_expansion_context() {
    let text = r#"
macro_rules! invoke {
    ($value:expr) => { $value };
}
pub trait Render { fn render(&self); }
pub struct Service;
impl Render for Service { fn render(&self) {} }
pub fn run() { invoke!(Service.render()); }
"#;
    let name = word(text, "render", 2);
    let receiver = word(text, "Service", 2);
    let service = definition(
        1,
        SymbolInformationKind::Struct,
        "Service",
        &["Service"],
        Some((1, word(text, "Service", 0))),
    );
    let render = method(2, text, "render", 0, in_trait("Render"));
    let in_macro = |range: TextRange| Site {
        range,
        ancestors: vec![node(NodeKind::Other, range), node(NodeKind::MacroCall, range)],
        scope: None,
    };
    let expanded = |range: TextRange, definitions| ExpandedToken {
        range,
        ancestors: method_call(name, receiver),
        definitions,
    };
    let unresolved = |range: TextRange| ExpandedToken { range, ancestors: vec![], definitions: vec![] };
    let tokens = vec![
        TokenFacts {
            site: in_macro(receiver),
            expansions: vec![unresolved(receiver), expanded(receiver, vec![service])],
        },
        TokenFacts { site: in_macro(name), expansions: vec![expanded(name, vec![render])] },
    ];
    let index = graph(&analysis(file(1, text, tokens)));
    let mut service_is_constructed = false;
    let mut render_is_called = false;
    for (_, token) in index.tokens.iter() {
        match token.display_name.as_deref() {
            Some("Service") => {
                service_is_constructed |= token
                    .references
                    .iter()
                    .any(|reference| reference.role == StaticReferenceRole::Instantiate);
            }
            Some("render") => {
                render_is_called |= token
                    .references
                    .iter()
                    .any(|reference| reference.role == StaticReferenceRole::Call);
            }
            _ => {}
        }
    }
    assert!(service_is_constructed);
    assert!(render_is_called);
}

#[test]
fn graph_covers_trait_generic_async_and_macro_semantics() {
    let text = r#"
pub trait Parent { type Item; const VALUE: u8; fn same(&self) -> u8; }
pub trait Child: Parent { fn child(&self) -> u8; }
pub trait Other { fn same(&self) -> u8; }
pub struct Service<T>(pub T);
impl Service<u8> { pub fn inherent(&self) -> u8 { self.0 } }
impl Parent for Service<u8> {
    type Item = u8;
    const VALUE: u8 = 1;
    fn same(&self) -> u8 { self.0 }
}
impl Child for Service<u8> { fn child(&self) -> u8 { Parent::same(self) } }
impl Other for Service<u8> { fn same(&self) -> u8 { self.inherent() } }
macro_rules! invoke { ($value:expr) => { $value }; }
pub fn generic<T: Parent>(value: &T) -> u8 { value.same() }
pub async fn asynchronous(value: Service<u8>) -> u8 {
    let constructed = Service(1);
    let closure = || Other::same(&value);
    invoke!(closure() + Child::child(&value) + constructed.inherent())
}
"#;
    let at = |name: &str, n: usize| Some((1, word(text, name, n)));
    let declared = |handle: u64, kind, name: &str, n: usize| {
        token(word(text, name, n), vec![], vec![definition(handle, kind, name, &[name], at(name, n))])
    };
    let same = |handle: u64, n: usize, container: Container| {
        token(word(text, "same", n), vec![], vec![method(handle, text, "same", n, container)])
    };
    let field_use = {
        let range = word(text, "0", 0);
        token(
            range,
            vec![node(NodeKind::Other, range), node(NodeKind::FieldExpr, range)],
            vec![definition(20, Field, "0", &["Service", "0"], None)],
        )
    };
    let constructed = {
        let range = word(text, "Service", 5);
        let mut call = node(NodeKind::CallExpr, TextRange::new(range.start, range.end + 3));
        call.part = Some(range);
        token(
            range,
            path(range, false, vec![node(NodeKind::PathExpr, range), call]),
            vec![definition(5, Struct, "Service", &["Service"], at("Service", 0))],
        )
    };
    let called = {
        let name = word(text, "inherent", 2);
        let receiver = word(text, "constructed", 1);
        token(
            name,
            method_call(name, receiver),
            vec![method(6, text, "inherent", 0, in_impl("Service<u8>", None))],
        )
    };
    let typed = {
        let range = word(text, "Service", 4);
        token(
            range,
            path(range, false, vec![node(NodeKind::PathType, range)]),
            vec![definition(5, Struct, "Service", &["Service"], at("Service", 0))],
        )
    };
    let tokens = vec![
        declared(1, AssociatedType, "Item", 0),
        declared(2, Constant, "VALUE", 0),
        same(3, 0, in_trait("Parent")),
        token(
            word(text, "child", 0),
            vec![],
            vec![method(4, text, "child", 0, in_trait("Child"))],
        ),
        same(9, 1, in_trait("Other")),
        declared(5, Struct, "Service", 0),
        token(
            word(text, "inherent", 0),
            vec![],
            vec![method(6, text, "inherent", 0, in_impl("Service<u8>", None))],
        ),
        field_use,
        same(10, 2, in_impl("Service<u8>", Some("Parent"))),
        same(11, 4, in_impl("Service<u8>", Some("Other"))),
        declared(12, Function, "generic", 0),
        declared(13, Function, "asynchronous", 0),
        typed,
        constructed,
        declared(14, Variable, "closure", 0),
        called,
    ];
    let parent = || end(Trait, "Parent", &["Parent"]);
    let child = || end(Trait, "Child", &["Child"]);
    let service = || end(Struct, "Service", &["Service"]);
    let mut facts = related(
        vec![TraitFacts { definition: child(), supertraits: vec![parent()] }],
        vec![ImplFacts {
            implemented: Some(ImplementedTrait {
                definition: parent(),
                items: vec![
                    item(AssocItemKind::TypeAlias, "Item", &["Parent", "Item"]),
                    item(AssocItemKind::Const, "VALUE", &["Parent", "VALUE"]),
                    item(AssocItemKind::Function, "same", &["Parent", "same"]),
                ],
            }),
            implementor: Some(service()),
            items: vec![
                item(AssocItemKind::TypeAlias, "Item", &["impl", "Item"]),
                item(AssocItemKind::Const, "VALUE", &["impl", "VALUE"]),
                item(AssocItemKind::Function, "same", &["impl", "same"]),
            ],
        }],
    );
    facts.files = vec![file(1, text, tokens)];
    let index = graph(&facts);
    let relation_kinds: Vec<StaticRelationKind> =
        index.relations.iter().map(|relation| relation.kind).collect();
    let tokens: Vec<TokenStaticData> =
        index.tokens.iter().into_iter().map(|(_, token)| token).collect();
    let same_ids = tokens
        .iter()
        .filter(|token| token.display_name.as_deref() == Some("same"))
        .map(|token| token.stable_id.as_str())
        .collect::<BTreeSet<_>>();
    let names =
        tokens.iter().filter_map(|token| token.display_name.as_deref()).collect::<BTreeSet<_>>();
    let roles = tokens
        .iter()
        .flat_map(|token| token.references.iter().map(|reference| reference.role))
        .collect::<Vec<_>>();

    assert!(relation_kinds.contains(&StaticRelationKind::Extends));
    assert!(relation_kinds.contains(&StaticRelationKind::Implements));
    assert!(relation_kinds.contains(&StaticRelationKind::Overrides));
    assert!(same_ids.len() >= 4, "same-named trait and impl methods were conflated");
    assert!(names.is_superset(&BTreeSet::from([
        "Item",
        "VALUE",
        "asynchronous",
        "child",
        "closure",
        "generic",
        "inherent",
    ])));
    assert!(roles.contains(&StaticReferenceRole::Access));
    assert!(roles.contains(&StaticReferenceRole::Call));
    assert!(roles.contains(&StaticReferenceRole::Instantiate));
    assert!(roles.contains(&StaticReferenceRole::Type));
}

#[test]
fn relations_come_once_and_in_order() {
    let trait_of = |name: &str, parents: &[&str]| TraitFacts {
        definition: end(Trait, name, &[name]),
        supertraits: parents.iter().map(|parent| end(Trait, parent, &[parent])).collect(),
    };
    let facts = related(
        vec![trait_of("B", &["Y", "X", "Y"]), trait_of("A", &["X"]), trait_of("A", &["X"])],
        vec![],
    );
    let relations = graph(&facts).relations;
    let ends: Vec<(Option<String>, String)> = relations
        .iter()
        .map(|relation| (relation.to_display_name.clone(), relation.from.clone()))
        .collect();
    assert_eq!(relations.len(), 3);
    let mut sorted = relations.clone();
    sorted.sort_by(|left, right| (&left.from, &left.to).cmp(&(&right.from, &right.to)));
    assert_eq!(relations, sorted);
    assert_eq!(ends.len(), 3);
}

#[test]
fn limited_relations_are_those_of_the_files() {
    let facts = |file: u32, name: &str| ModuleFacts {
        traits: vec![TraitFacts {
            definition: end(Trait, name, &[name]),
            supertraits: vec![end(Trait, "X", &["X"]), end(Trait, "Y", &["Y"])],
        }],
        ..module(file, "/workspace/lib.rs", false).module
    };
    let modules = [facts(2, "C"), facts(1, "B"), facts(3, "A"), facts(1, "D")];
    let all = semantic_relations(&modules.iter().collect(), None);
    assert_eq!(all.len(), 8);
    let mut files = rustc_hash::FxHashSet::default();
    files.insert(1);
    files.insert(3);
    let mut limited = all;
    limited.retain(|relation| relation.file_id != FileId(2));
    assert_eq!(limited.len(), 6);
    assert_eq!(semantic_relations(&modules.iter().collect(), Some(&files)), limited);
}

#[test]
fn only_items_of_the_same_kind_and_name_are_overridden() {
    let facts = related(
        vec![],
        vec![ImplFacts {
            implemented: Some(ImplementedTrait {
                definition: end(SymbolInformationKind::Trait, "T", &["T"]),
                items: vec![
                    item(AssocItemKind::Const, "a", &["T", "a"]),
                    item(AssocItemKind::Function, "b", &["T", "b"]),
                ],
            }),
            implementor: None,
            items: vec![
                item(AssocItemKind::Function, "a", &["impl", "a"]),
                item(AssocItemKind::Function, "b", &["impl", "b"]),
                AssocItem {
                    kind: AssocItemKind::Function,
                    name: None,
                    definition: end(SymbolInformationKind::Method, "c", &["impl", "c"]),
                },
            ],
        }],
    );
    let relations = graph(&facts).relations;
    assert_eq!(relations.len(), 1);
    assert_eq!(relations[0].kind, StaticRelationKind::Overrides);
    assert_eq!(relations[0].to_display_name.as_deref(), Some("b"));
}

#[test]
fn some_files_can_be_indexed_alone() {
    let facts = Analysis {
        roots: vec![module(1, "/workspace/a.rs", false), module(2, "/workspace/b.rs", false)],
        files: vec![
            file_with(1, "main", "a.rs", "first"),
            file_with(2, "main", "b.rs", "second"),
        ],
    };
    let index = StaticIndex::compute_graph_files(&facts, &vec![FileId(2), FileId(2), FileId(9)]);
    assert_eq!(index.files.len(), 1);
    assert_eq!(index.files[0].file_id, FileId(2));
    assert_eq!(index.tokens.len(), 1);
    assert!(index.graph);
}

#[test]
fn relations_are_limited_to_the_files_that_are_indexed() {
    let with_trait = |id: u32, name: &str| {
        let mut root = module(id, "/workspace/lib.rs", false);
        root.module.traits = vec![TraitFacts {
            definition: end(SymbolInformationKind::Trait, name, &[name]),
            supertraits: vec![end(SymbolInformationKind::Trait, "Base", &["Base"])],
        }];
        root
    };
    let mut library = with_trait(3, "C");
    library.module.library = true;
    let facts = Analysis { roots: vec![with_trait(1, "A"), with_trait(2, "B"), library], files: vec![] };
    assert_eq!(graph(&facts).relations.len(), 2);
    let index = StaticIndex::compute_graph_files(&facts, &vec![FileId(2), FileId(3)]);
    assert_eq!(index.relations.len(), 1);
    assert_eq!(index.relations[0].file_id, FileId(2));
}

#[test]
fn source_files_come_once_and_in_order() {
    let mut root = module(5, "/workspace/a.rs", false);
    root.children.push(module(3, "/workspace/b.rs", false));
    root.children.push(module(5, "/workspace/a.rs", false));
    let facts = Analysis {
        roots: vec![root, module(1, "/vendor/c.rs", true), module(2, "/workspace/vendor/d.rs", true)],
        files: vec![],
    };
    assert_eq!(
        StaticIndex::graph_source_files(&facts, VendoredLibrariesConfig::Excluded),
        vec![FileId(3), FileId(5)]
    );
    let base = VfsPath::Virtual(WORKSPACE.to_owned());
    assert_eq!(
        StaticIndex::graph_source_files(
            &facts,
            VendoredLibrariesConfig::Included { workspace_root: &base }
        ),
        vec![FileId(2), FileId(3), FileId(5)]
    );
}

#[test]
fn files_without_a_crate_to_show_names_for_are_left_out() {
    let mut facts = analysis(file_with(1, "main", "lib.rs", "execute"));
    facts.files[0].displayed = false;
    let index = graph(&facts);
    assert!(index.files.is_empty());
    assert_eq!(index.tokens.len(), 0);
}

#[test]
fn a_graph_names_declarations_by_the_crate_with_the_least_context() {
    let digest = |facts: &CrateFacts| {
        graph_snapshot::identity::crate_context_digest_for_crate(facts)
    };
    let one = krate("one", "one.rs");
    let two = krate("two", "two.rs");
    let least = if digest(&one) < digest(&two) { "one" } else { "two" };
    for order in [["one", "two"], ["two", "one"]] {
        let mut shared = file_with(1, "one", "one.rs", "shared");
        shared.crates = order
            .iter()
            .map(|name| FileCrate {
                facts: krate(name, &format!("{name}.rs")),
                name: Some(name.to_string()),
            })
            .collect();
        let monikers =
            order.iter().map(|name| Some(moniker(&[name, "shared"]))).collect::<Vec<_>>();
        shared.tokens[0].expansions[0].definitions[0].monikers = monikers;
        let facts = analysis(shared);
        let index = graph(&facts);
        let token = index.tokens.get(TokenId(0)).unwrap();
        assert_eq!(token.qualified_name, Some(format!("{least}::shared")));
        let stock = StaticIndex::compute(&facts, VendoredLibrariesConfig::Excluded);
        let name = match &stock.tokens.get(TokenId(0)).unwrap().moniker {
            Some(MonikerResult::Moniker(moniker)) => {
                moniker.identifier.description[0].name.clone()
            }
            other => panic!("{other:?}"),
        };
        assert_eq!(name, order[1]);
    }
}

#[test]
fn documentation_needs_a_crate_and_for_builtin_types_a_scope() {
    let text = "u8 f";
    let docs = |handle: u64, name: &str| {
        let mut facts =
            definition(handle, SymbolInformationKind::Function, name, &[name], None);
        facts.docs = Some(format!("about {name}"));
        facts
    };
    let mut builtin = docs(1, "u8");
    builtin.builtin_type = true;
    let mut orphan = docs(2, "f");
    orphan.declaration.krate = None;
    let tokens = vec![
        token(word(text, "u8", 0), vec![], vec![builtin]),
        token(word(text, "f", 0), vec![], vec![orphan, docs(3, "f")]),
    ];
    let index = graph(&analysis(file(1, text, tokens)));
    let found: Vec<Option<String>> = index
        .tokens
        .iter()
        .into_iter()
        .map(|(_, token)| token.documentation)
        .collect();
    assert_eq!(found, vec![None, None, Some("about f".to_owned())]);
}

#[test]
fn modules_refer_to_their_whole_file() {
    let text = "fn f() {}";
    let mut facts = file(1, text, vec![]);
    facts.module =
        Some(definition(1, SymbolInformationKind::Module, "crate", &["crate"], None));
    let index = graph(&analysis(facts));
    assert_eq!(index.files[0].tokens, vec![(TextRange::new(0, 9), TokenId(0))]);
    let token = index.tokens.get(TokenId(0)).unwrap();
    assert_eq!(token.references.len(), 1);
    assert_eq!(token.references[0].role, StaticReferenceRole::Reference);
    assert!(!token.references[0].is_definition);
}

#[test]
fn tokens_are_found_by_their_numbers() {
    let index = graph(&analysis(file_with(1, "main", "lib.rs", "execute")));
    let first = index.tokens.get(TokenId(0)).unwrap().clone();
    let mut store = TokenStore::default();
    let id = store.insert(first.clone());
    assert_eq!(id.raw(), 0);
    assert_eq!(store.insert(first.clone()).raw(), 1);
    assert_eq!(store.len(), 2);
    store.get_mut(TokenId(1)).unwrap().exported = false;
    assert!(store.get(TokenId(0)).unwrap().exported);
    assert!(!store.get(TokenId(1)).unwrap().exported);
    assert!(store.get(TokenId(2)).is_none());
    assert!(store.get_mut(TokenId(2)).is_none());
    assert_eq!(store.data().len(), 2);
    let numbers: Vec<usize> = store.iter_ref().iter().map(|(id, _)| id.raw()).collect();
    assert_eq!(numbers, [0, 1]);
    let all = store.iter();
    assert_eq!((all[0].0, all[1].0), (TokenId(0), TokenId(1)));
    assert_eq!(all[0].1, first);
}

#[test]
fn files_are_indexed_once_in_order_of_first_occurrence() {
    let facts = Analysis {
        roots: vec![
            module(1, "/workspace/a.rs", false),
            module(2, "/workspace/b.rs", false),
            module(3, "/workspace/c.rs", false),
        ],
        files: vec![
            file_with(1, "main", "a.rs", "first"),
            file_with(2, "main", "b.rs", "second"),
            file_with(3, "main", "c.rs", "third"),
        ],
    };
    let covered = |index: &StaticIndex| {
        index.files.iter().map(|file| file.file_id).collect::<Vec<_>>()
    };
    let many = vec![FileId(3), FileId(1), FileId(3), FileId(1), FileId(3)];
    let index = StaticIndex::compute_graph_files(&facts, &many);
    assert_eq!(covered(&index), vec![FileId(3), FileId(1)]);
    for token in index.tokens.data() {
        for reference in &token.references {
            assert!(many.contains(&reference.range.file_id));
        }
    }
    let once = StaticIndex::compute_graph_files(&facts, &vec![FileId(3), FileId(1)]);
    assert_eq!(once.files, index.files);
    assert_eq!(once.tokens.data(), index.tokens.data());
    assert_eq!(once.relations, index.relations);
}

#[test]
fn source_files_are_those_of_the_index() {
    let text = "struct Main(i32);\nstruct ExternalLibrary(i32);\nstruct VendoredLibrary(i32);\n";
    let facts = crates_with_libraries([text, text, text]);
    let root = VfsPath::Virtual(WORKSPACE.to_owned());
    for (config, expected) in [
        (VendoredLibrariesConfig::Excluded, vec![FileId(1)]),
        (
            VendoredLibrariesConfig::Included { workspace_root: &root },
            vec![FileId(1), FileId(3)],
        ),
    ] {
        let sources = StaticIndex::graph_source_files(&facts, config);
        let mut covered: Vec<FileId> = StaticIndex::compute_graph(&facts, config)
            .files
            .iter()
            .map(|file| file.file_id)
            .collect();
        covered.sort_by_key(|id| id.index());
        assert_eq!(sources, expected);
        assert_eq!(covered, expected);
    }
}
