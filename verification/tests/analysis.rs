use tach::config::modules::ModuleConfig;
use tach::config::project::{DjangoConfig, ProjectConfig, RootModuleTreatment};
use tach::dependency::{
    Dependency, DjangoMetadata, ExternalDependencyExtractor, FileModule,
    InternalDependencyExtractor, ProjectFile, ResolvedImport, SourceCodeReference,
};
use tach::directives::{IgnoreDirective, IgnoreDirectives};
use tach::files::{file_to_module_path, files_to_look_for};
use tach::imports::{
    get_normalized_imports, ImportError, ImportStatement, ImportedName, NormalizedImport,
    StringLiteral, SyntaxItem,
};
use tach::lines::SourceLines;
use tach::located::{
    get_external_normalized_imports, get_located_external_imports, get_located_project_imports,
    LocatedImport,
};
use tach::paths::{is_ancestor, same_text};
use tach::scan::get_ignore_directives;
use tach::tree::{ModuleNode, ModuleTree, ModuleTreeError};

fn tree_of(paths: &[&str]) -> ModuleTree {
    let mut config = ProjectConfig::default();
    config.modules = paths.iter().map(|p| ModuleConfig::new(p)).collect();
    ModuleTree::build(&config).unwrap()
}

fn nearest(tree: &ModuleTree, path: &str) -> Option<String> {
    tree.find_nearest(path).map(|node| node.path().to_string())
}

fn from_import(offset: u32, level: u32, module: Option<&str>, names: &[(&str, u32)]) -> SyntaxItem {
    SyntaxItem::Import(ImportStatement {
        offset,
        level,
        module: module.map(|m| m.to_string()),
        names: names
            .iter()
            .map(|(name, offset)| ImportedName { name: name.to_string(), offset: *offset })
            .collect(),
        type_checking: false,
    })
}

fn import(path: &str, import_offset: u32, alias_offset: u32) -> NormalizedImport {
    NormalizedImport { mod_path: path.to_string(), import_offset, alias_offset }
}

fn resolved(path: &str, import_offset: u32, alias_offset: u32, in_project: bool) -> ResolvedImport {
    ResolvedImport { import: import(path, import_offset, alias_offset), in_project }
}

fn facts(imports: &[NormalizedImport]) -> Vec<(String, u32, u32)> {
    imports.iter().map(|i| (i.mod_path.clone(), i.import_offset, i.alias_offset)).collect()
}

fn dependency_facts(dependencies: &[Dependency]) -> Vec<(String, u32)> {
    dependencies.iter().map(|d| (d.mod_path().to_string(), d.offset())).collect()
}

fn directive_facts(directives: &IgnoreDirectives) -> Vec<(usize, Vec<String>)> {
    directives.directives.iter().map(|d| (d.line_no, d.modules.clone())).collect()
}

fn located_facts(imports: &[LocatedImport]) -> Vec<(String, usize, usize)> {
    imports
        .iter()
        .map(|i| (i.mod_path().to_string(), i.import_line_number(), i.alias_line_number()))
        .collect()
}

#[test]
fn text_helpers() {
    assert!(same_text("a.b", "a.b"));
    assert!(!same_text("a.b", "a.c"));
    assert!(!same_text("a", "a.b"));
    assert!(is_ancestor("a", "a"));
    assert!(is_ancestor("a", "a.b"));
    assert!(is_ancestor("a.b", "a.b.c.d"));
    assert!(!is_ancestor("a", "ab"));
    assert!(!is_ancestor("a.b", "a"));
    assert!(!is_ancestor("b", "a.b"));
}

#[test]
fn longest_declared_prefix_owns_a_path() {
    let tree = tree_of(&["a", "a.b", "a.b.c", "<root>"]);
    assert_eq!(nearest(&tree, "a.b.c.d").as_deref(), Some("a.b.c"));
    assert_eq!(nearest(&tree, "a.b.c").as_deref(), Some("a.b.c"));
    assert_eq!(nearest(&tree, "a.x").as_deref(), Some("a"));
    assert_eq!(nearest(&tree, "a.bc").as_deref(), Some("a"));
    assert_eq!(nearest(&tree, "z").as_deref(), Some("<root>"));
    assert!(tree.find_nearest("z").unwrap().is_root());
    assert!(!tree.find_nearest("a.x").unwrap().is_root());
}

#[test]
fn without_a_root_an_unowned_path_is_not_found() {
    let tree = tree_of(&["a.b.c", "a", "a.b"]);
    assert_eq!(nearest(&tree, "a.b.c.d").as_deref(), Some("a.b.c"));
    assert_eq!(nearest(&tree, "a.x").as_deref(), Some("a"));
    assert_eq!(nearest(&tree, "z"), None);
    assert_eq!(nearest(&ModuleTree::new(), "a"), None);
}

#[test]
fn registry_finds_modules_by_path() {
    let tree = tree_of(&["a", "a.b"]);
    assert_eq!(tree.get("a.b").map(|n| n.path().to_string()).as_deref(), Some("a.b"));
    assert!(tree.get("a.b.c").is_none());
}

#[test]
fn registry_refuses_a_path_declared_twice() {
    let mut config = ProjectConfig::default();
    config.modules = vec![ModuleConfig::new("a"), ModuleConfig::new("b")];
    let mut domain = tach::config::domain::LocatedDomainConfig::new("d", "d.toml");
    domain.modules = vec![ModuleConfig::new("d.x"), ModuleConfig::new("b"), ModuleConfig::new("a")];
    config.add_domain(domain);
    match ModuleTree::build(&config) {
        Err(ModuleTreeError::DuplicateModule(path)) => assert_eq!(path, "b"),
        other => panic!("{:?}", other.map(|_| ())),
    }
}

#[test]
fn unchecked_modules_are_told() {
    let mut config = ProjectConfig::default();
    let mut skipped = ModuleConfig::new("skipped");
    skipped.unchecked = true;
    config.modules = vec![skipped, ModuleConfig::new("a")];
    let tree = ModuleTree::build(&config).unwrap();
    assert!(tree.find_nearest("skipped.x").unwrap().is_unchecked());
    assert!(!tree.find_nearest("a").unwrap().is_unchecked());
    assert_eq!(ModuleNode::empty().path(), "");
}

#[test]
fn line_numbers_count_from_one() {
    let lines = SourceLines::new("def a():\n    pass\r\nx = 1\ry = 2").unwrap();
    assert_eq!(lines.line_number(0), 1);
    assert_eq!(lines.line_number(4), 1);
    assert_eq!(lines.line_number(8), 1);
    assert_eq!(lines.line_number(9), 2);
    assert_eq!(lines.line_number(17), 2);
    assert_eq!(lines.line_number(18), 2);
    assert_eq!(lines.line_number(19), 3);
    assert_eq!(lines.line_number(24), 3);
    assert_eq!(lines.line_number(25), 4);
    assert_eq!(lines.line_number(29), 4);
    assert_eq!(lines.line_number(1000), 4);
    assert_eq!(SourceLines::new("").unwrap().line_number(0), 1);
}

#[test]
fn one_statement_gives_one_import_for_each_name() {
    let text = "import os\nfrom pkg import x, y\n";
    let items = vec![from_import(10, 0, Some("pkg"), &[("x", 26), ("y", 29)])];
    let imports = get_normalized_imports("a.b", false, &items, true, false).unwrap();
    assert_eq!(
        facts(&imports),
        vec![("pkg.x".to_string(), 10, 26), ("pkg.y".to_string(), 10, 29)]
    );
    assert_eq!(imports[0].import_offset, imports[1].import_offset);
    assert_ne!(imports[0].alias_offset, imports[1].alias_offset);
    let lines = SourceLines::new(text).unwrap();
    assert_eq!(lines.line_number(imports[0].alias_offset), 2);
    assert_eq!(lines.line_number(imports[1].alias_offset), 2);
    assert_eq!(lines.line_number(imports[0].import_offset), 2);
}

#[test]
fn plain_imports_name_their_modules() {
    let items = vec![from_import(0, 0, None, &[("os.path", 7), ("sys", 16)])];
    let imports = get_normalized_imports("a.b", false, &items, true, false).unwrap();
    assert_eq!(
        facts(&imports),
        vec![("os.path".to_string(), 0, 7), ("sys".to_string(), 0, 16)]
    );
}

#[test]
fn relative_imports_are_read_against_the_file() {
    let items = vec![
        from_import(0, 1, None, &[("x", 14)]),
        from_import(20, 1, Some("m"), &[("y", 36)]),
        from_import(40, 2, Some("m.n"), &[("z", 60)]),
        from_import(70, 3, None, &[("top", 90)]),
    ];
    let in_module = get_normalized_imports("a.b.c", false, &items, true, false).unwrap();
    assert_eq!(
        facts(&in_module),
        vec![
            ("a.b.x".to_string(), 0, 14),
            ("a.b.m.y".to_string(), 20, 36),
            ("a.m.n.z".to_string(), 40, 60),
            ("top".to_string(), 70, 90),
        ]
    );
    let in_package = get_normalized_imports("a.b.c", true, &items, true, false).unwrap();
    assert_eq!(
        facts(&in_package),
        vec![
            ("a.b.c.x".to_string(), 0, 14),
            ("a.b.c.m.y".to_string(), 20, 36),
            ("a.b.m.n.z".to_string(), 40, 60),
            ("a.top".to_string(), 70, 90),
        ]
    );
}

#[test]
fn relative_import_above_the_root_is_refused() {
    let items = vec![from_import(0, 0, Some("ok"), &[("x", 5)]), from_import(20, 3, None, &[("x", 30)])];
    assert_eq!(
        get_normalized_imports("a.b", false, &items, true, false).map(|i| facts(&i)),
        Err(ImportError::RelativeImportEscapesRoot)
    );
    assert!(get_normalized_imports("a.b", true, &items, true, false).is_ok());
    assert!(get_normalized_imports("a.b.c", false, &items, true, false).is_ok());
}

#[test]
fn type_checking_imports_are_left_out_on_request() {
    let mut guarded = ImportStatement {
        offset: 30,
        level: 9,
        module: None,
        names: vec![ImportedName { name: "t".to_string(), offset: 40 }],
        type_checking: true,
    };
    let items = vec![from_import(0, 0, None, &[("os", 7)]), SyntaxItem::Import(guarded)];
    let imports = get_normalized_imports("a", false, &items, true, false).unwrap();
    assert_eq!(facts(&imports), vec![("os".to_string(), 0, 7)]);
    assert_eq!(
        get_normalized_imports("a", false, &items, false, false).map(|i| facts(&i)),
        Err(ImportError::RelativeImportEscapesRoot)
    );
    guarded = ImportStatement {
        offset: 30,
        level: 0,
        module: Some("typing".to_string()),
        names: vec![ImportedName { name: "Any".to_string(), offset: 49 }],
        type_checking: true,
    };
    let items = vec![SyntaxItem::Import(guarded)];
    let imports = get_normalized_imports("a", false, &items, false, false).unwrap();
    assert_eq!(facts(&imports), vec![("typing.Any".to_string(), 30, 49)]);
}

#[test]
fn string_literals_count_only_on_request() {
    let literal = |text: &str, offset: u32| {
        SyntaxItem::Literal(StringLiteral { text: text.to_string(), offset })
    };
    let items = vec![
        literal("pkg.models.User", 5),
        from_import(30, 0, None, &[("os", 37)]),
        literal("hello", 50),
        literal("a..b", 60),
        literal(".a.b", 70),
        literal("a.b.", 80),
        literal("a b.c", 90),
        literal("x_1.Y2", 100),
    ];
    let with = get_normalized_imports("a", false, &items, true, true).unwrap();
    assert_eq!(
        facts(&with),
        vec![
            ("pkg.models.User".to_string(), 5, 5),
            ("os".to_string(), 30, 37),
            ("x_1.Y2".to_string(), 100, 100),
        ]
    );
    let without = get_normalized_imports("a", false, &items, true, false).unwrap();
    assert_eq!(facts(&without), vec![("os".to_string(), 30, 37)]);
    let external = get_external_normalized_imports("a", false, &items, true).unwrap();
    assert_eq!(facts(&external), vec![("os".to_string(), 30, 37)]);
}

#[test]
fn directives_are_found_with_their_lines_and_modules() {
    let text = "import a  # tach-ignore\nimport b\nimport c  # tach-ignore  c.d   e\n# tach-ignore(x)\n";
    let directives = get_ignore_directives(text);
    assert_eq!(
        directive_facts(&directives),
        vec![
            (1, vec![]),
            (3, vec!["c.d".to_string(), "e".to_string()]),
            (4, vec!["(x)".to_string()]),
        ]
    );
    assert_eq!(directives.len(), 3);
    assert!(get_ignore_directives("import a # tach ignore\n").directives.is_empty());
    assert!(get_ignore_directives("").directives.is_empty());
}

#[test]
fn directives_cover_their_line_and_modules() {
    let directives = get_ignore_directives("x # tach-ignore\n\ny # tach-ignore c.d e\n");
    assert!(directives.ignores_at("anything", 1));
    assert!(!directives.ignores_at("anything", 2));
    assert!(directives.ignores_at("c.d", 3));
    assert!(directives.ignores_at("e", 3));
    assert!(!directives.ignores_at("c", 3));
    assert!(!directives.ignores_at("c.d", 4));
    assert!(!IgnoreDirectives::empty().ignores_at("a", 1));
    assert!(directives.is_ignored(&LocatedImport::new(2, 3, import("c.d", 40, 50))));
    assert!(!directives.is_ignored(&LocatedImport::new(3, 4, import("c.d", 40, 50))));
    assert!(!directives.is_ignored(&LocatedImport::new(3, 3, import("q", 40, 50))));
}

#[test]
fn removing_directives_of_a_line() {
    let mut directives = IgnoreDirectives {
        directives: vec![
            IgnoreDirective { line_no: 1, modules: vec![] },
            IgnoreDirective { line_no: 2, modules: vec!["a".to_string()] },
            IgnoreDirective { line_no: 1, modules: vec!["b".to_string()] },
            IgnoreDirective { line_no: 3, modules: vec![] },
        ],
    };
    directives.remove_matching_directives(7);
    assert_eq!(directives.len(), 4);
    assert!(directives.ignores_at("b", 1));
    directives.remove_matching_directives(1);
    assert_eq!(
        directive_facts(&directives),
        vec![(2, vec!["a".to_string()]), (3, vec![])]
    );
    assert!(!directives.ignores_at("b", 1));
    assert!(!directives.ignores_at("anything", 1));
    directives.remove_matching_directives(1);
    assert_eq!(directives.len(), 2);
}

#[test]
fn dependencies_tell_their_module_and_offset() {
    let a = Dependency::from(import("a.b", 3, 9));
    let b = Dependency::from(SourceCodeReference { mod_path: "users".to_string(), offset: 44 });
    assert_eq!(a.mod_path(), "a.b");
    assert_eq!(a.offset(), 9);
    assert_eq!(b.mod_path(), "users");
    assert_eq!(b.offset(), 44);
    assert!(matches!(a, Dependency::Import(_)));
    assert!(matches!(b, Dependency::Reference(_)));
}

#[test]
fn metadata_defaults_to_no_known_apps() {
    let config = DjangoConfig { settings_module: "proj.settings".to_string() };
    let known = DjangoMetadata::new(&config, Some(vec!["users".to_string()]));
    assert_eq!(known.known_apps, vec!["users"]);
    assert_eq!(known.config.settings_module, "proj.settings");
    let unknown = DjangoMetadata::new(&config, None);
    assert!(unknown.known_apps.is_empty());
}

const SOURCE: &str = "import os  # tach-ignore\nfrom a import x  # tach-ignore\nimport b.c\nimport json  # tach-ignore json\n";

fn source_file(mod_path: &str) -> ProjectFile {
    ProjectFile {
        file_path: "src/a/b.py".to_string(),
        mod_path: mod_path.to_string(),
        contents: SOURCE.to_string(),
        imports: vec![
            resolved("os", 0, 7, false),
            resolved("a.x", 25, 39, true),
            resolved("b.c", 56, 63, true),
            resolved("json", 67, 74, false),
        ],
        references: vec![SourceCodeReference { mod_path: "users".to_string(), offset: 99 }],
    }
}

#[test]
fn file_module_reads_its_text() {
    let file = FileModule::new("f.py".to_string(), SOURCE.to_string(), ModuleNode::empty());
    assert_eq!(file.file_path(), "f.py");
    assert_eq!(file.contents(), SOURCE);
    assert_eq!(file.line_number(0), 1);
    assert_eq!(file.line_number(25), 2);
    assert_eq!(file.line_number(56), 3);
    assert_eq!(file.ignore_directives.len(), 3);
    assert!(file.dependencies.is_empty());
}

#[test]
fn internal_and_external_extraction_split_the_imports() {
    let mut config = ProjectConfig::default();
    config.modules = vec![ModuleConfig::new("a")];
    let tree = ModuleTree::build(&config).unwrap();
    let roots = vec!["src".to_string()];
    let internal = InternalDependencyExtractor::new(&roots, &tree, &config, None);
    let found = internal.process(source_file("a.b")).unwrap();
    assert_eq!(found.module.path(), "a");
    assert_eq!(found.file_path(), "src/a/b.py");
    assert_eq!(
        dependency_facts(&found.dependencies),
        vec![("a.x".to_string(), 39), ("b.c".to_string(), 63)]
    );
    assert_eq!(directive_facts(&found.ignore_directives), vec![(2, vec![])]);

    let external = ExternalDependencyExtractor::new(&roots, &config);
    let outside = external.process(source_file("a.b"));
    assert_eq!(outside.module.path(), "");
    assert_eq!(
        dependency_facts(&outside.dependencies),
        vec![("os".to_string(), 7), ("json".to_string(), 74)]
    );
    assert_eq!(
        directive_facts(&outside.ignore_directives),
        vec![(1, vec![]), (4, vec!["json".to_string()])]
    );
    for candidate in source_file("a.b").imports {
        let inside = found.dependencies.iter().any(|d| d.mod_path() == candidate.import.mod_path);
        let beyond = outside.dependencies.iter().any(|d| d.mod_path() == candidate.import.mod_path);
        assert!(inside != beyond);
        assert_eq!(inside, candidate.in_project);
    }
}

#[test]
fn references_follow_the_imports_where_the_plugin_is_configured() {
    let mut config = ProjectConfig::default();
    config.modules = vec![ModuleConfig::new("a")];
    config.django = Some(DjangoConfig { settings_module: "proj.settings".to_string() });
    let tree = ModuleTree::build(&config).unwrap();
    let roots = vec![".".to_string()];
    let extractor =
        InternalDependencyExtractor::new(&roots, &tree, &config, Some(vec!["users".to_string()]));
    assert_eq!(extractor.django_metadata.as_ref().unwrap().known_apps, vec!["users"]);
    let found = extractor.process(source_file("a")).unwrap();
    assert_eq!(
        dependency_facts(&found.dependencies),
        vec![("a.x".to_string(), 39), ("b.c".to_string(), 63), ("users".to_string(), 99)]
    );
}

#[test]
fn a_file_that_no_module_owns_is_refused() {
    let mut config = ProjectConfig::default();
    config.modules = vec![ModuleConfig::new("a")];
    let tree = ModuleTree::build(&config).unwrap();
    let roots = vec![".".to_string()];
    let extractor = InternalDependencyExtractor::new(&roots, &tree, &config, None);
    match extractor.process(source_file("z.y")) {
        Err(ModuleTreeError::ModuleNotFound(path)) => assert_eq!(path, "z.y"),
        other => panic!("{:?}", other.map(|f| f.file_path)),
    }
}

#[test]
fn files_of_unchecked_and_ignored_root_modules_are_left_unread() {
    let mut config = ProjectConfig::default();
    let mut skipped = ModuleConfig::new("skipped");
    skipped.unchecked = true;
    config.modules = vec![skipped, ModuleConfig::new("<root>")];
    config.root_module = RootModuleTreatment::Ignore;
    let tree = ModuleTree::build(&config).unwrap();
    let roots = vec![".".to_string()];
    let extractor = InternalDependencyExtractor::new(&roots, &tree, &config, None);
    assert!(extractor.owner_of("skipped.m").unwrap().1);
    assert!(extractor.owner_of("elsewhere").unwrap().1);
    assert!(!extractor.owner_of("skipped").unwrap().0.is_root());
    let unchecked = extractor.process(source_file("skipped.m")).unwrap();
    assert!(unchecked.dependencies.is_empty());
    assert_eq!(unchecked.ignore_directives.len(), 3);
    let in_root = extractor.process(source_file("elsewhere")).unwrap();
    assert!(in_root.module.is_root());
    assert!(in_root.dependencies.is_empty());

    config.root_module = RootModuleTreatment::Allow;
    let extractor = InternalDependencyExtractor::new(&roots, &tree, &config, None);
    let in_root = extractor.process(source_file("elsewhere")).unwrap();
    assert_eq!(in_root.dependencies.len(), 2);
}

#[test]
fn located_imports_leave_out_what_directives_cover() {
    let project = get_located_project_imports(SOURCE, source_file("a").imports);
    assert_eq!(located_facts(&project), vec![("b.c".to_string(), 3, 3)]);
    let external = get_located_external_imports(SOURCE, source_file("a").imports);
    assert!(located_facts(&external).is_empty());
    let text = "from a import (\n    x,\n    y,  # tach-ignore\n)\nimport os\n";
    let imports = vec![
        resolved("a.x", 0, 20, true),
        resolved("a.y", 0, 27, true),
        resolved("os", 49, 56, false),
    ];
    let project = get_located_project_imports(text, imports);
    assert_eq!(located_facts(&project), vec![("a.x".to_string(), 1, 2)]);
    let located = LocatedImport::new(1, 2, import("a.x", 0, 20));
    assert_eq!(located.mod_path(), "a.x");
    assert_eq!(located.import_line_number(), 1);
    assert_eq!(located.alias_line_number(), 2);
}

#[test]
fn files_get_their_module_from_their_place() {
    let roots = vec!["src".to_string(), "lib/py".to_string(), ".".to_string()];
    let module = |file: &str| file_to_module_path(&roots, file);
    assert_eq!(module("src/a/b.py"), Some(("a.b".to_string(), false)));
    assert_eq!(module("src/a/__init__.py"), Some(("a".to_string(), true)));
    assert_eq!(module("src/__init__.py"), Some(("".to_string(), true)));
    assert_eq!(module("lib/py/x.py"), Some(("x".to_string(), false)));
    assert_eq!(module("tools/run.py"), Some(("tools.run".to_string(), false)));
    assert_eq!(module("srcx/a.py"), Some(("srcx.a".to_string(), false)));
    assert_eq!(module("src/a/b.txt"), None);
    assert_eq!(module("src/a/b_init__.py"), Some(("a.b_init__".to_string(), false)));
    let only = vec!["src".to_string()];
    assert_eq!(file_to_module_path(&only, "tools/run.py"), None);
    assert_eq!(file_to_module_path(&only, "src"), None);
    assert_eq!(file_to_module_path(&vec![], "a.py"), None);
}

#[test]
fn imported_modules_are_looked_for_as_packages_files_and_members() {
    assert_eq!(
        files_to_look_for("a.b.c"),
        vec!["a/b/c/__init__.py", "a/b/c.py", "a/b/__init__.py", "a/b.py"]
    );
    assert_eq!(files_to_look_for("os"), vec!["os/__init__.py", "os.py"]);
}
