//! The identities of declarations, the roles of references, and the extent of declarations.

use graph_snapshot::digest::digest_bytes;
use graph_snapshot::exports::{
    FileCrate, ModuleScope, Visibility, VisibilityChain, export_data, has_public_visibility_chain,
    is_effectively_exported, moniker_for, qualified_name,
};
use graph_snapshot::files::{FileId, FileRange, TextRange};
use graph_snapshot::identity::{
    Container, CrateDependency, CrateFacts, CrateRoot, Declaration, DeclarationSyntax, NameSite,
    NamedDeclaration, Place, RootPath, SyntaxStep, append_assoc_identity, append_component,
    append_local_identity, append_moniker, crate_context_digest, crate_context_digest_for_crate,
    crate_root_key, stable_definition_id,
};
use graph_snapshot::moniker::{
    Moniker, MonikerDescriptor, MonikerDescriptorKind, MonikerIdentifier, MonikerResult,
    PackageInformation, SymbolInformationKind,
};
use graph_snapshot::roles::{
    Ancestor, Covering, NodeKind, TokenKind, definition_range_excluding_trivia,
    is_leading_trivia_excluding_docs, is_terminal_path_segment, is_trailing_trivia, public_use,
    reference_role,
};
use graph_snapshot::static_index::{StaticExportData, StaticReferenceRole};

fn range(start: u32, end: u32) -> TextRange {
    TextRange::new(start, end)
}

fn dependency_root() -> CrateRoot {
    CrateRoot {
        is_local: false,
        path: RootPath::Unavailable,
        directory: None,
        graph_identity: None,
    }
}

fn disk_root(relative: Option<&str>, directory: Option<&str>, identity: Option<&str>) -> CrateRoot {
    CrateRoot {
        is_local: true,
        path: RootPath::Disk {
            path: "C:\\w\\a\\src\\lib.rs".to_owned(),
            relative: relative.map(str::to_owned),
            components: ["C:", "\\", "w", "a", "src", "lib.rs"].map(str::to_owned).to_vec(),
        },
        directory: directory.map(str::to_owned),
        graph_identity: identity.map(str::to_owned),
    }
}

fn krate(dependencies: Vec<CrateDependency>) -> CrateFacts {
    CrateFacts {
        root: dependency_root(),
        display_name: "Some(\"a\")".to_owned(),
        version: "None".to_owned(),
        origin: "Local".to_owned(),
        edition: "Edition2021".to_owned(),
        cfg: "[]".to_owned(),
        dependencies,
    }
}

fn dependency(name: &str) -> CrateDependency {
    CrateDependency {
        name: name.to_owned(),
        display_name: format!("Some({name:?})"),
        version: "Some(\"1\")".to_owned(),
        origin: "Library".to_owned(),
        root: dependency_root(),
        cfg: "[]".to_owned(),
    }
}

fn moniker(parts: &[(&str, MonikerDescriptorKind)]) -> Moniker {
    Moniker {
        identifier: MonikerIdentifier {
            crate_name: "a".to_owned(),
            description: parts
                .iter()
                .map(|(name, desc)| MonikerDescriptor { name: name.to_string(), desc: *desc })
                .collect(),
        },
        package_information: PackageInformation {
            name: "pkg".to_owned(),
            repo: None,
            version: Some("1.0".to_owned()),
        },
    }
}

fn declaration(kind: SymbolInformationKind, name: &str) -> Declaration {
    Declaration {
        kind,
        name: Some(name.to_owned()),
        krate: None,
        syntax: None,
        owner: None,
        container: None,
    }
}

#[test]
fn components_give_lengths_in_bytes() {
    let mut id = "x".to_owned();
    append_component(&mut id, "a\u{e9}", "");
    append_component(&mut id, "b", "12345678901");
    assert_eq!(id, "x|3:a\u{e9}=0:|1:b=11:12345678901");
    // Labels and values cannot be shifted against each other.
    let mut first = String::new();
    append_component(&mut first, "a", "b|1:c=1:d");
    let mut second = String::new();
    append_component(&mut second, "a", "b");
    append_component(&mut second, "c", "d");
    assert_ne!(first, second);
}

#[test]
fn monikers_are_spelled_out() {
    let mut id = String::new();
    append_moniker(
        &mut id,
        &moniker(&[("m", MonikerDescriptorKind::Namespace), ("f", MonikerDescriptorKind::Method)]),
    );
    assert_eq!(
        id,
        "|7:package=3:pkg|7:version=3:1.0|10:repository=0:|5:crate=1:a\
         |4:kind=9:Namespace|4:name=1:m|4:kind=6:Method|4:name=1:f",
    );
}

#[test]
fn root_keys_do_not_depend_on_where_the_workspace_is() {
    assert_eq!(crate_root_key(&dependency_root()), "dependency");
    let local = |path: RootPath| CrateRoot {
        is_local: true,
        path,
        directory: None,
        graph_identity: None,
    };
    assert_eq!(crate_root_key(&local(RootPath::Unavailable)), "unavailable");
    assert_eq!(crate_root_key(&local(RootPath::Virtual("/main.rs".to_owned()))), "/main.rs");
    assert_eq!(
        crate_root_key(&disk_root(Some("src\\lib.rs"), Some("a"), Some("pkg#1"))),
        "pkg#1;root=src/lib.rs",
    );
    assert_eq!(
        crate_root_key(&disk_root(None, Some("a"), Some("pkg#1"))),
        "pkg#1;root=C:/w/a/src/lib.rs",
    );
    assert_eq!(
        crate_root_key(&disk_root(Some("src\\lib.rs"), Some("a"), None)),
        "a/src/lib.rs",
    );
    assert_eq!(crate_root_key(&disk_root(None, None, None)), "workspace/a/src/lib.rs");
}

#[test]
fn contexts_list_dependencies_in_order() {
    let digest =
        crate_context_digest_for_crate(&krate(vec![dependency("z"), dependency("y\"")]));
    assert_eq!(
        digest,
        digest_bytes(
            b"root=dependency;name=Some(\"a\");version=None;origin=Local;edition=Edition2021;\
              cfg=[];dependencies=[\"y\\\"=Some(\\\"y\\\\\\\"\\\")@Some(\\\"1\\\"):Library:\
              dependency:[]\", \"z=Some(\\\"z\\\")@Some(\\\"1\\\"):Library:dependency:[]\"]",
        ),
    );
    assert_eq!(
        crate_context_digest_for_crate(&krate(vec![dependency("y\""), dependency("z")])),
        digest,
    );
    assert_ne!(crate_context_digest_for_crate(&krate(vec![dependency("z")])), digest);
}

#[test]
fn contexts_of_declarations_fall_back_on_their_owners() {
    let mut inner = declaration(SymbolInformationKind::Variable, "x");
    assert_eq!(crate_context_digest(&inner), "builtin");
    let mut outer = declaration(SymbolInformationKind::Function, "f");
    outer.krate = Some(krate(Vec::new()));
    let expected = crate_context_digest_for_crate(&krate(Vec::new()));
    assert_eq!(crate_context_digest(&outer), expected);
    inner.owner = Some(Box::new(NamedDeclaration { declaration: outer, moniker: None }));
    assert_eq!(crate_context_digest(&inner), expected);
    inner.owner = Some(Box::new(NamedDeclaration {
        declaration: declaration(SymbolInformationKind::Function, "g"),
        moniker: None,
    }));
    assert_eq!(crate_context_digest(&inner), "builtin");
}

fn site(text: &str, kind: &str, at: TextRange) -> NameSite {
    NameSite { text: text.to_owned(), parent_kind: Some(kind.to_owned()), range: at }
}

fn local_text(syntax: Option<DeclarationSyntax>) -> String {
    let mut id = String::new();
    append_local_identity(&mut id, SymbolInformationKind::Variable, &None, &syntax);
    id
}

fn local_identity(syntax: &str) -> String {
    format!("|10:local-kind=8:Variable|10:local-name=0:|6:syntax={}:{syntax}", syntax.len())
}

#[test]
fn local_names_are_counted_in_their_scope() {
    let names = vec![
        site("x", "IDENT_PAT", range(1, 2)),
        site("x", "IDENT_PAT", range(11, 12)),
        site("y", "IDENT_PAT", range(13, 14)),
        site("x", "NAME_REF", range(15, 16)),
        site("x", "IDENT_PAT", range(17, 18)),
    ];
    let at = |name: NameSite, owner: Option<FileRange>| {
        local_text(Some(DeclarationSyntax {
            file_id: FileId(1),
            root: range(0, 100),
            owner,
            place: Place::Name(name, names.clone()),
        }))
    };
    let owner = |file: u32| Some(FileRange { file_id: FileId(file), range: range(10, 20) });
    let last = || site("x", "IDENT_PAT", range(17, 18));
    assert_eq!(at(last(), None), local_identity("IDENT_PAT:2"));
    assert_eq!(at(last(), owner(1)), local_identity("IDENT_PAT:1"));
    assert_eq!(at(last(), owner(2)), local_identity("IDENT_PAT:2"));
    let bare = NameSite { text: "q".to_owned(), parent_kind: None, range: range(30, 31) };
    assert_eq!(at(bare, None), local_identity("NAME:0"));
    assert_eq!(local_text(None), local_identity("unavailable"));
}

#[test]
fn nameless_declarations_are_found_by_their_path() {
    let step = |kind: &str, at: TextRange, is_root: bool, earlier: &[&str]| SyntaxStep {
        kind: kind.to_owned(),
        range: at,
        is_root,
        earlier: earlier.iter().map(|kind| kind.to_string()).collect(),
    };
    let steps = vec![
        step("SELF_PARAM", range(30, 34), false, &[]),
        step("FN", range(20, 40), false, &["FN", "CONST", "FN"]),
        step("IMPL", range(10, 50), false, &["FN"]),
        step("SOURCE_FILE", range(0, 60), true, &[]),
    ];
    let at = |owner: Option<TextRange>| {
        local_text(Some(DeclarationSyntax {
            file_id: FileId(1),
            root: range(0, 60),
            owner: owner.map(|at| FileRange { file_id: FileId(1), range: at }),
            place: Place::Path(steps.clone()),
        }))
    };
    assert_eq!(at(None), local_identity("IMPL:0/FN:2/SELF_PARAM:0"));
    assert_eq!(at(Some(range(10, 50))), local_identity("FN:2/SELF_PARAM:0"));
    assert_eq!(at(Some(range(30, 34))), local_identity(""));
}

#[test]
fn identities_name_declarations_and_what_they_belong_to() {
    let context = "rust-hir-v1|13:crate-context=7:builtin";
    let named = Some(MonikerResult::Moniker(moniker(&[])));
    let package = "|7:package=3:pkg|7:version=3:1.0|10:repository=0:|5:crate=1:a";
    let local = "|10:local-kind=8:Function|10:local-name=1:f|6:syntax=11:unavailable";
    let mut function = declaration(SymbolInformationKind::Function, "f");
    assert_eq!(stable_definition_id(&function, &named), format!("{context}{package}"));
    assert_eq!(
        stable_definition_id(
            &function,
            &Some(MonikerResult::Local { enclosing_moniker: Some(moniker(&[])) }),
        ),
        format!("{context}{package}{local}"),
    );
    assert_eq!(
        stable_definition_id(&function, &Some(MonikerResult::Local { enclosing_moniker: None })),
        format!("{context}|5:scope=10:unresolved{local}"),
    );
    assert_eq!(
        stable_definition_id(&function, &None),
        format!("{context}|5:scope=21:builtin-or-unresolved{local}"),
    );
    // An owner counts where its crate is known.
    function.owner = Some(Box::new(NamedDeclaration {
        declaration: declaration(SymbolInformationKind::Module, "m"),
        moniker: Some(MonikerResult::Moniker(moniker(&[]))),
    }));
    assert_eq!(
        stable_definition_id(&function, &None),
        format!("{context}|5:scope=21:builtin-or-unresolved{local}"),
    );
    let mut owner = declaration(SymbolInformationKind::Module, "m");
    owner.krate = Some(krate(Vec::new()));
    let digest = crate_context_digest_for_crate(&krate(Vec::new()));
    let within = format!("rust-hir-v1|13:crate-context=64:{digest}{package}");
    function.owner = Some(Box::new(NamedDeclaration {
        declaration: owner,
        moniker: Some(MonikerResult::Moniker(moniker(&[]))),
    }));
    assert_eq!(
        stable_definition_id(&function, &None),
        format!(
            "rust-hir-v1|13:crate-context=64:{digest}|5:scope=21:builtin-or-unresolved\
             |15:enclosing-owner={}:{within}{local}",
            within.len(),
        ),
    );
}

#[test]
fn items_name_their_trait_or_implementation() {
    let named = || {
        Box::new(NamedDeclaration {
            declaration: declaration(SymbolInformationKind::Trait, "T"),
            moniker: Some(MonikerResult::Moniker(moniker(&[]))),
        })
    };
    let identity = stable_definition_id(&named().declaration, &named().moniker);
    let text = |container: Option<Container>| {
        let mut item = declaration(SymbolInformationKind::Method, "f");
        item.container = container;
        let mut id = String::new();
        append_assoc_identity(&mut id, &item);
        id
    };
    let length = identity.len();
    assert_eq!(text(None), "");
    assert_eq!(
        text(Some(Container::Trait(named()))),
        format!("|11:assoc-owner={length}:{identity}"),
    );
    assert_eq!(
        text(Some(Container::Impl { self_type: "S".to_owned(), implemented: Some(named()) })),
        format!("|9:impl-self=1:S|17:implemented-trait={length}:{identity}"),
    );
    assert_eq!(
        text(Some(Container::Impl { self_type: "S".to_owned(), implemented: None })),
        "|9:impl-self=1:S|17:implemented-trait=8:inherent",
    );
}

#[test]
fn qualified_names_join_the_parts_of_a_path() {
    let parts =
        [("m", MonikerDescriptorKind::Namespace), ("f", MonikerDescriptorKind::Method)];
    let name = Some("x".to_owned());
    assert_eq!(
        qualified_name(&Some(MonikerResult::Moniker(moniker(&parts))), &name),
        Some("m::f".to_owned()),
    );
    assert_eq!(qualified_name(&Some(MonikerResult::Moniker(moniker(&[]))), &name), None);
    let local = |enclosing_moniker| Some(MonikerResult::Local { enclosing_moniker });
    assert_eq!(
        qualified_name(&local(Some(moniker(&parts))), &name),
        Some("m::f::x".to_owned()),
    );
    assert_eq!(qualified_name(&local(None), &name), Some("x".to_owned()));
    assert_eq!(qualified_name(&local(None), &None), None);
    assert_eq!(qualified_name(&None, &name), name);
}

#[test]
fn declarations_are_exported_where_everything_around_them_is() {
    let chain = |own: Option<bool>, owners: &[Option<bool>]| VisibilityChain {
        own,
        owners: owners.to_vec(),
    };
    assert!(has_public_visibility_chain(&chain(Some(true), &[None, Some(true)])));
    assert!(!has_public_visibility_chain(&chain(Some(true), &[None, Some(false)])));
    assert!(!has_public_visibility_chain(&chain(Some(false), &[])));
    assert!(!has_public_visibility_chain(&chain(None, &[])));
    let exported = |implementor| {
        is_effectively_exported(&Visibility { chain: chain(Some(true), &[]), implementor })
    };
    assert!(exported(None));
    assert!(exported(Some(chain(Some(true), &[]))));
    assert!(!exported(Some(chain(Some(false), &[]))));
}

#[test]
fn exports_name_their_module_and_their_alias() {
    let crates = |name: Option<&str>| {
        vec![FileCrate { facts: krate(Vec::new()), name: name.map(str::to_owned) }]
    };
    let named = Some(MonikerResult::Moniker(moniker(&[("m", MonikerDescriptorKind::Namespace)])));
    let unnamed = Some(MonikerResult::Moniker(moniker(&[])));
    let scope = |moniker: &Option<MonikerResult>| {
        Some(ModuleScope {
            declaration: declaration(SymbolInformationKind::Module, "m"),
            monikers: vec![moniker.clone()],
            name: None,
        })
    };
    let tree = |rename: Option<&str>| Ancestor {
        rename: rename.map(|name| (name.to_owned(), range(20, 21))),
        ..around(NodeKind::UseTree, range(0, 30))
    };
    let at = FileRange { file_id: FileId(1), range: range(10, 11) };
    let target = Some("c".to_owned());
    let exporter = stable_definition_id(&scope(&named).unwrap().declaration, &named);
    let found = export_data(
        &crates(Some("a")),
        Some(0),
        &scope(&named),
        &target,
        "id",
        at,
        &vec![around(NodeKind::UseTree, range(0, 5)), tree(Some("d"))],
    )
    .unwrap();
    assert_eq!(
        found,
        StaticExportData {
            exporter: exporter.clone(),
            alias_id: format!(
                "rust-export-v1|8:exporter={}:{exporter}|5:alias=1:d|6:target=2:id",
                exporter.len(),
            ),
            alias: "d".to_owned(),
            qualified_name: "m::d".to_owned(),
            alias_range: FileRange { file_id: FileId(1), range: range(20, 21) },
        },
    );
    // Without another name the declaration keeps its own.
    let kept = export_data(
        &crates(Some("a")),
        Some(0),
        &scope(&unnamed),
        &target,
        "id",
        at,
        &vec![tree(None)],
    )
    .unwrap();
    assert_eq!(kept.alias, "c");
    assert_eq!(kept.alias_range, at);
    assert_eq!(kept.qualified_name, "a::c");
    let bare =
        export_data(&crates(None), Some(0), &scope(&unnamed), &target, "id", at, &vec![tree(None)]);
    assert_eq!(bare.unwrap().qualified_name, "c");
    // The crate, the module, a use tree and a name are needed.
    let missing = |krate: Option<usize>, scope: Option<ModuleScope>, target: Option<String>| {
        export_data(&crates(None), krate, &scope, &target, "id", at, &vec![tree(None)])
    };
    assert_eq!(missing(None, scope(&named), target.clone()), None);
    assert_eq!(missing(Some(1), scope(&named), target.clone()), None);
    assert_eq!(missing(Some(0), None, target.clone()), None);
    assert_eq!(missing(Some(0), scope(&named), None), None);
    assert_eq!(
        export_data(&crates(None), Some(0), &scope(&named), &target, "id", at, &vec![]),
        None,
    );
    assert_eq!(moniker_for(&vec![None, named.clone()], Some(1)), &named);
    assert_eq!(moniker_for(&vec![named.clone()], None), &None);
    assert_eq!(moniker_for(&vec![named], Some(3)), &None);
}

fn around(kind: NodeKind, at: TextRange) -> Ancestor {
    Ancestor {
        kind,
        range: at,
        part: None,
        receiver: None,
        visibility: None,
        text: String::new(),
        rename: None,
    }
}

fn with_part(kind: NodeKind, at: TextRange, part: TextRange) -> Ancestor {
    Ancestor { part: Some(part), ..around(kind, at) }
}

#[test]
fn roles_follow_the_innermost_telling_node() {
    let at = range(4, 6);
    let role = |kind: SymbolInformationKind, ancestors: Vec<Ancestor>| {
        reference_role(kind, &ancestors, at)
    };
    let function = SymbolInformationKind::Function;
    let structure = SymbolInformationKind::Struct;
    let wide = range(0, 20);
    assert_eq!(role(function, vec![]), StaticReferenceRole::Reference);
    assert_eq!(role(function, vec![around(NodeKind::Attr, wide)]), StaticReferenceRole::Decorate);
    assert_eq!(
        role(function, vec![around(NodeKind::UseTree, wide)]),
        StaticReferenceRole::Import,
    );
    let public = Ancestor { visibility: Some("pub".to_owned()), ..around(NodeKind::Use, wide) };
    assert_eq!(
        role(function, vec![around(NodeKind::UseTree, wide), public.clone()]),
        StaticReferenceRole::Export,
    );
    let qualifier = vec![
        around(NodeKind::PathSegment, at),
        around(NodeKind::Path, at),
        around(NodeKind::Path, wide),
        around(NodeKind::UseTree, wide),
        public,
    ];
    assert_eq!(role(function, qualifier), StaticReferenceRole::Import);
    assert_eq!(role(structure, vec![around(NodeKind::PathType, wide)]), StaticReferenceRole::Type);
    assert_eq!(
        role(SymbolInformationKind::Macro, vec![around(NodeKind::MacroCall, wide)]),
        StaticReferenceRole::Call,
    );
    assert_eq!(
        role(function, vec![around(NodeKind::MacroCall, wide)]),
        StaticReferenceRole::Reference,
    );
    assert_eq!(
        role(structure, vec![around(NodeKind::PathExpr, range(0, 6))]),
        StaticReferenceRole::Instantiate,
    );
    assert_eq!(
        role(structure, vec![around(NodeKind::PathExpr, wide)]),
        StaticReferenceRole::Reference,
    );
    assert_eq!(
        role(function, vec![around(NodeKind::PathExpr, range(0, 6))]),
        StaticReferenceRole::Reference,
    );
    assert_eq!(
        role(structure, vec![with_part(NodeKind::RecordExpr, wide, range(4, 6))]),
        StaticReferenceRole::Instantiate,
    );
    assert_eq!(
        role(function, vec![with_part(NodeKind::CallExpr, wide, range(4, 6))]),
        StaticReferenceRole::Call,
    );
    assert_eq!(
        role(function, vec![with_part(NodeKind::CallExpr, wide, range(0, 2))]),
        StaticReferenceRole::Reference,
    );
    assert_eq!(
        role(function, vec![with_part(NodeKind::MethodCallExpr, wide, range(4, 6))]),
        StaticReferenceRole::Call,
    );
    let receiver = Ancestor {
        receiver: Some(range(4, 6)),
        ..with_part(NodeKind::MethodCallExpr, wide, range(8, 9))
    };
    assert_eq!(
        role(SymbolInformationKind::EnumMember, vec![receiver.clone()]),
        StaticReferenceRole::Instantiate,
    );
    assert_eq!(role(function, vec![receiver]), StaticReferenceRole::Reference);
    assert_eq!(role(function, vec![around(NodeKind::FieldExpr, wide)]), StaticReferenceRole::Access);
    assert_eq!(
        role(function, vec![around(NodeKind::RecordExprField, wide)]),
        StaticReferenceRole::Access,
    );
    // The inner node decides.
    assert_eq!(
        role(function, vec![around(NodeKind::FieldExpr, wide), around(NodeKind::Attr, wide)]),
        StaticReferenceRole::Access,
    );
}

#[test]
fn public_uses_and_last_segments_are_told() {
    let wide = range(0, 20);
    let used = |visibility: Option<&str>| {
        public_use(&vec![Ancestor {
            visibility: visibility.map(str::to_owned),
            ..around(NodeKind::Use, wide)
        }])
    };
    assert!(used(Some("pub")));
    assert!(!used(Some("pub(crate)")));
    assert!(!used(None));
    assert!(!public_use(&vec![]));
    let segment = || around(NodeKind::PathSegment, wide);
    let path = || around(NodeKind::Path, wide);
    assert!(is_terminal_path_segment(&vec![]));
    assert!(is_terminal_path_segment(&vec![segment(), path()]));
    assert!(!is_terminal_path_segment(&vec![segment(), path(), path()]));
    assert!(is_terminal_path_segment(&vec![segment(), path(), around(NodeKind::Other, wide)]));
}

#[test]
fn declarations_end_where_their_last_token_does() {
    let root = range(0, 50);
    let tokens = || {
        Covering::Node(vec![
            (range(0, 2), TokenKind::Whitespace),
            (range(2, 5), TokenKind::Comment),
            (range(5, 9), TokenKind::DocComment),
            (range(9, 12), TokenKind::Other),
            (range(12, 13), TokenKind::Whitespace),
            (range(13, 15), TokenKind::Other),
            (range(15, 18), TokenKind::DocComment),
            (range(18, 20), TokenKind::Comment),
        ])
    };
    let cut = |at: TextRange| definition_range_excluding_trivia(root, at, &tokens());
    assert_eq!(cut(range(0, 20)), range(5, 15));
    assert_eq!(cut(range(9, 13)), range(9, 12));
    assert_eq!(cut(range(0, 5)), range(0, 5));
    assert_eq!(cut(range(15, 20)), range(15, 20));
    assert_eq!(cut(root), root);
    assert_eq!(cut(range(40, 60)), range(40, 60));
    let token = |kind: TokenKind| {
        definition_range_excluding_trivia(root, range(3, 4), &Covering::Token(range(2, 6), kind))
    };
    assert_eq!(token(TokenKind::Other), range(2, 6));
    assert_eq!(token(TokenKind::Comment), range(3, 4));
    assert_eq!(token(TokenKind::DocComment), range(3, 4));
    assert!(is_leading_trivia_excluding_docs(TokenKind::Comment));
    assert!(!is_leading_trivia_excluding_docs(TokenKind::DocComment));
    assert!(is_trailing_trivia(TokenKind::DocComment));
    assert!(!is_trailing_trivia(TokenKind::Other));
}

#[test]
fn identities_do_not_depend_on_coordinates() {
    let within = |file: u32, offset: u32, longer: u32| {
        let scope = range(offset, offset + 40 + longer);
        let name = |at: u32| site("x", "IDENT_PAT", range(offset + longer + at, offset + longer + at + 1));
        let mut owner = declaration(SymbolInformationKind::Function, "f");
        owner.krate = Some(krate(Vec::new()));
        owner.syntax = Some(DeclarationSyntax {
            file_id: FileId(file),
            root: range(0, 500),
            owner: None,
            place: Place::Name(
                site("f", "FN", range(offset, offset + 1)),
                vec![site("f", "FN", range(offset, offset + 1))],
            ),
        });
        let mut variable = declaration(SymbolInformationKind::Variable, "x");
        variable.syntax = Some(DeclarationSyntax {
            file_id: FileId(file),
            root: range(0, 500),
            owner: Some(FileRange { file_id: FileId(file), range: scope }),
            place: Place::Name(name(20), vec![name(5), name(20), name(30)]),
        });
        variable.owner = Some(Box::new(NamedDeclaration {
            declaration: owner,
            moniker: Some(MonikerResult::Local { enclosing_moniker: Some(moniker(&[])) }),
        }));
        stable_definition_id(&variable, &None)
    };
    assert_eq!(within(1, 0, 0), within(1, 100, 0));
    assert_eq!(within(1, 0, 0), within(1, 7, 60));
    assert_eq!(within(1, 0, 0), within(9, 50, 3));
}

#[test]
fn identities_tell_declarations_apart() {
    let named = |path: &[(&str, MonikerDescriptorKind)]| Some(MonikerResult::Moniker(moniker(path)));
    let local = || Some(MonikerResult::Local { enclosing_moniker: Some(moniker(&[])) });
    let trait_named = |name: &str| {
        Box::new(NamedDeclaration {
            declaration: declaration(SymbolInformationKind::Trait, name),
            moniker: named(&[(name, MonikerDescriptorKind::Type)]),
        })
    };
    let function = || declaration(SymbolInformationKind::Function, "f");
    let inside = |container: Container| Declaration { container: Some(container), ..function() };
    let implemented = |self_type: &str, name: Option<&str>| {
        inside(Container::Impl {
            self_type: self_type.to_owned(),
            implemented: name.map(|name| trait_named(name)),
        })
    };
    let f: &[(&str, MonikerDescriptorKind)] = &[("f", MonikerDescriptorKind::Method)];
    let ids = [
        stable_definition_id(&function(), &named(f)),
        stable_definition_id(&function(), &named(&[("f", MonikerDescriptorKind::Term)])),
        stable_definition_id(&function(), &named(&[("g", MonikerDescriptorKind::Method)])),
        stable_definition_id(&function(), &local()),
        stable_definition_id(&function(), &Some(MonikerResult::Local { enclosing_moniker: None })),
        stable_definition_id(&function(), &None),
        stable_definition_id(&declaration(SymbolInformationKind::Variable, "f"), &local()),
        stable_definition_id(&declaration(SymbolInformationKind::Function, "h"), &local()),
        stable_definition_id(
            &Declaration { krate: Some(krate(Vec::new())), ..function() },
            &named(f),
        ),
        stable_definition_id(&inside(Container::Trait(trait_named("T"))), &named(f)),
        stable_definition_id(&inside(Container::Trait(trait_named("U"))), &named(f)),
        stable_definition_id(&implemented("S", None), &named(f)),
        stable_definition_id(&implemented("S", Some("T")), &named(f)),
        stable_definition_id(&implemented("S", Some("U")), &named(f)),
        stable_definition_id(&implemented("R", Some("T")), &named(f)),
    ];
    for (index, left) in ids.iter().enumerate() {
        for right in &ids[index + 1..] {
            assert_ne!(left, right);
        }
    }
}
