use tach::config::domain::LocatedDomainConfig;
use tach::config::edit::{ConfigEdit, EditError};
use tach::config::modules::{DependencyConfig, InterfaceConfig, ModuleConfig};
use tach::config::project::{
    default_excludes, default_source_roots, ProjectConfig, RootModuleTreatment,
};
use tach::config::save::{SaveAction, SaveEvent};

fn module(path: &str, depends_on: Option<Vec<&str>>) -> ModuleConfig {
    let mut m = ModuleConfig::new(path);
    m.depends_on = depends_on.map(|deps| deps.into_iter().map(DependencyConfig::new).collect());
    m
}

fn project(modules: Vec<ModuleConfig>) -> ProjectConfig {
    let mut config = ProjectConfig::default();
    config.modules = modules;
    config
}

fn domain(mod_path: &str, location: &str, modules: Vec<ModuleConfig>) -> LocatedDomainConfig {
    let mut d = LocatedDomainConfig::new(mod_path, location);
    d.modules = modules;
    d
}

fn dependency_paths(module: &ModuleConfig) -> Option<Vec<String>> {
    module.depends_on.as_ref().map(|deps| deps.iter().map(|d| d.path.clone()).collect())
}

#[test]
fn defaults() {
    let config = ProjectConfig::default();
    assert!(config.modules.is_empty());
    assert_eq!(
        config.exclude,
        vec!["**/tests", "**/docs", "**/*__pycache__", "**/*egg-info", "**/venv"]
    );
    assert_eq!(config.source_roots, vec!["."]);
    assert!(config.ignore_type_checking_imports);
    assert!(!config.include_string_imports);
    assert!(!config.exact);
    assert_eq!(config.root_module, RootModuleTreatment::Allow);
    assert!(config.location.is_none());
    assert!(!config.has_edits());
    assert_eq!(default_source_roots(), vec!["."]);
    assert_eq!(default_excludes().len(), 5);
    assert_eq!(ProjectConfig::new().source_roots, vec!["."]);
}

#[test]
fn location_and_domains_are_recorded() {
    let mut config = ProjectConfig::default();
    config.set_location("proj/tach.toml".to_string());
    assert_eq!(config.location.as_deref(), Some("proj/tach.toml"));
    config.add_domain(domain("d", "d/tach.domain.toml", vec![module("d.x", None)]));
    config.add_domain(domain("e", "e/tach.domain.toml", vec![]));
    assert_eq!(config.domains.len(), 2);
    assert_eq!(config.domains[1].mod_path, "e");
}

#[test]
fn all_modules_lists_the_project_first() {
    let mut config = project(vec![module("a", None), module("b", None)]);
    config.add_domain(domain("d", "d.toml", vec![module("d.x", None), module("d.y", None)]));
    config.add_domain(domain("e", "e.toml", vec![module("e.z", None)]));
    let paths: Vec<&str> = config.all_modules().iter().map(|m| m.path.as_str()).collect();
    assert_eq!(paths, vec!["a", "b", "d.x", "d.y", "e.z"]);
    assert_eq!(config.module_paths(), vec!["a", "b", "d.x", "d.y", "e.z"]);
}

#[test]
fn all_interfaces_lists_the_project_first() {
    let mut config = ProjectConfig::default();
    config.interfaces.push(InterfaceConfig { expose: vec!["x".to_string()], from_modules: vec![] });
    let mut d = domain("d", "d.toml", vec![]);
    d.interfaces.push(InterfaceConfig { expose: vec!["y".to_string()], from_modules: vec![] });
    config.add_domain(d);
    let exposed: Vec<&str> =
        config.all_interfaces().iter().map(|i| i.expose[0].as_str()).collect();
    assert_eq!(exposed, vec!["x", "y"]);
}

#[test]
fn utility_paths_lists_utilities_only() {
    let mut a = module("a", None);
    a.utility = true;
    let mut dx = module("d.x", None);
    dx.utility = true;
    let mut config = project(vec![a, module("b", None)]);
    config.add_domain(domain("d", "d.toml", vec![dx]));
    assert_eq!(config.utility_paths(), vec!["a", "d.x"]);
}

#[test]
fn dependencies_for_module_takes_the_first_match() {
    let mut config = project(vec![module("a", Some(vec!["b"])), module("n", None)]);
    config.add_domain(domain("d", "d.toml", vec![module("a", Some(vec!["zzz"]))]));
    let found: Vec<&str> = config
        .dependencies_for_module("a")
        .unwrap()
        .iter()
        .map(|d| d.path.as_str())
        .collect();
    assert_eq!(found, vec!["b"]);
    assert!(config.dependencies_for_module("n").is_none());
    assert!(config.dependencies_for_module("missing").is_none());
}

#[test]
fn prepend_roots_keeps_the_root_for_a_dot() {
    let mut config = ProjectConfig::default();
    config.source_roots = vec![".".to_string(), "src".to_string()];
    assert_eq!(config.prepend_roots("proj"), vec!["proj", "proj/src"]);
}

#[test]
fn with_modules_replaces_the_modules_only() {
    let mut config = project(vec![module("a", None)]);
    config.exact = true;
    let other = config.with_modules(vec![module("x", None), module("y", None)]);
    assert_eq!(other.module_paths(), vec!["x", "y"]);
    assert!(other.exact);
    assert_eq!(config.module_paths(), vec!["a"]);
}

#[test]
fn with_dependencies_removed_empties_lists() {
    let config = project(vec![module("a", Some(vec!["b", "c"])), module("b", None)]);
    let bare = config.with_dependencies_removed();
    assert_eq!(dependency_paths(&bare.modules[0]), Some(vec![]));
    assert_eq!(dependency_paths(&bare.modules[1]), None);
    assert_eq!(dependency_paths(&config.modules[0]).unwrap().len(), 2);
}

#[test]
fn mark_utilities_sets_and_clears() {
    let mut b = module("b", None);
    b.utility = true;
    let mut config = project(vec![module("a", None), b, module("c", None)]);
    config.mark_utilities(vec!["a".to_string(), "c".to_string(), "zzz".to_string()]);
    let flags: Vec<bool> = config.modules.iter().map(|m| m.utility).collect();
    assert_eq!(flags, vec![true, false, true]);
}

#[test]
fn add_dependency_to_module_appends_once() {
    let mut config = project(vec![module("a", Some(vec!["b"])), module("n", None)]);
    config.add_dependency_to_module("a", DependencyConfig::new("c"));
    config.add_dependency_to_module("a", DependencyConfig::new("b"));
    assert_eq!(dependency_paths(&config.modules[0]), Some(vec!["b".to_string(), "c".to_string()]));
    config.add_dependency_to_module("n", DependencyConfig::new("a"));
    assert_eq!(dependency_paths(&config.modules[1]), Some(vec!["a".to_string()]));
    config.add_dependency_to_module("new", DependencyConfig::new("a"));
    assert_eq!(config.modules.len(), 3);
    assert_eq!(config.modules[2].path, "new");
    assert_eq!(dependency_paths(&config.modules[2]), Some(vec!["a".to_string()]));
    assert!(!config.modules[2].utility);
}

#[test]
fn set_modules_keeps_known_modules_and_trims_their_dependencies() {
    let mut a = module("a", Some(vec!["b", "gone", "c"]));
    a.utility = true;
    let mut config = project(vec![a, module("b", None), module("gone", Some(vec!["a"]))]);
    config.set_modules(vec![
        "b".to_string(),
        "a".to_string(),
        "c".to_string(),
        "a".to_string(),
    ]);
    let paths: Vec<&str> = config.modules.iter().map(|m| m.path.as_str()).collect();
    assert_eq!(paths, vec!["b", "a", "c"]);
    assert_eq!(dependency_paths(&config.modules[0]), None);
    assert_eq!(dependency_paths(&config.modules[1]), Some(vec!["b".to_string(), "c".to_string()]));
    assert!(config.modules[1].utility);
    assert_eq!(dependency_paths(&config.modules[2]), None);
    assert!(!config.modules[2].utility);
}

#[test]
fn compare_dependencies_reports_the_extra_dependency() {
    let baseline = project(vec![module("a", Some(vec!["b"]))]);
    let modified = project(vec![module("a", Some(vec!["b", "c"]))]);
    let report = baseline.compare_dependencies(&modified);
    assert_eq!(report.len(), 1);
    assert_eq!(report[0].path, "a");
    let extra: Vec<&str> = report[0].dependencies.iter().map(|d| d.path.as_str()).collect();
    assert_eq!(extra, vec!["c"]);
    assert!(modified.compare_dependencies(&baseline).is_empty());
    assert!(baseline.compare_dependencies(&baseline).is_empty());
}

#[test]
fn compare_dependencies_reports_unknown_modules_whole() {
    let baseline = project(vec![module("a", None)]);
    let modified = project(vec![
        module("a", Some(vec!["x"])),
        module("n", Some(vec!["a", "b"])),
        module("m", None),
    ]);
    let report = baseline.compare_dependencies(&modified);
    let paths: Vec<&str> = report.iter().map(|r| r.path.as_str()).collect();
    assert_eq!(paths, vec!["a", "n", "m"]);
    assert_eq!(report[0].dependencies.len(), 1);
    assert_eq!(report[1].dependencies.len(), 2);
    assert!(report[2].dependencies.is_empty());
}

#[test]
fn compare_dependencies_looks_at_paths_only() {
    let baseline = project(vec![module("a", Some(vec!["b"]))]);
    let mut modified = project(vec![module("a", Some(vec!["b"]))]);
    modified.modules[0].depends_on.as_mut().unwrap()[0].deprecated = true;
    assert!(baseline.compare_dependencies(&modified).is_empty());
}

#[test]
fn create_module_is_checked_against_what_is_declared() {
    let mut config = ProjectConfig::default();
    assert_eq!(config.create_module("a.b".to_string()), Ok(()));
    assert_eq!(config.create_module("a.b".to_string()), Ok(()));
    assert_eq!(config.pending_edits.len(), 2);
    assert!(config.modules.is_empty());
    config.modules.push(module("a.b", None));
    assert_eq!(config.create_module("a.b".to_string()), Err(EditError::ModuleAlreadyExists));
    assert_eq!(config.pending_edits.len(), 2);
}

#[test]
fn edits_of_a_module_need_the_module() {
    let mut config = project(vec![module("a", None)]);
    assert_eq!(config.delete_module("zzz".to_string()), Err(EditError::ModuleNotFound));
    assert_eq!(config.mark_module_as_utility("zzz".to_string()), Err(EditError::ModuleNotFound));
    assert_eq!(config.unmark_module_as_utility("zzz".to_string()), Err(EditError::ModuleNotFound));
    assert_eq!(
        config.add_dependency("zzz".to_string(), "a".to_string()),
        Err(EditError::ModuleNotFound)
    );
    assert_eq!(
        config.remove_dependency("zzz".to_string(), "a".to_string()),
        Err(EditError::ModuleNotFound)
    );
    assert!(!config.has_edits());
    assert_eq!(config.delete_module("a".to_string()), Ok(()));
    assert_eq!(config.mark_module_as_utility("a".to_string()), Ok(()));
    assert_eq!(config.unmark_module_as_utility("a".to_string()), Ok(()));
    assert_eq!(config.add_dependency("a".to_string(), "b".to_string()), Ok(()));
    assert_eq!(config.remove_dependency("a".to_string(), "b".to_string()), Ok(()));
    assert_eq!(config.pending_edits.len(), 5);
    assert!(config.has_edits());
}

#[test]
fn source_root_edits_are_always_taken() {
    let mut config = ProjectConfig::default();
    config.add_domain(domain("d", "d.toml", vec![]));
    assert_eq!(config.add_source_root("src".to_string()), Ok(()));
    assert_eq!(config.remove_source_root("lib".to_string()), Ok(()));
    assert_eq!(config.pending_edits.len(), 2);
    assert!(config.domains[0].pending_edits.is_empty());
}

#[test]
fn a_domain_that_takes_an_edit_keeps_it_from_the_project() {
    let mut config = project(vec![module("a", None)]);
    config.add_domain(domain("d", "d.toml", vec![module("d.x", None)]));
    assert_eq!(config.create_module("d.y".to_string()), Ok(()));
    assert_eq!(config.domains[0].pending_edits.len(), 1);
    assert!(config.pending_edits.is_empty());
    assert_eq!(config.delete_module("d.x".to_string()), Ok(()));
    assert_eq!(config.domains[0].pending_edits.len(), 2);
    assert!(config.pending_edits.is_empty());
    assert_eq!(config.create_module("d.x".to_string()), Err(EditError::ModuleAlreadyExists));
    assert_eq!(config.create_module("other".to_string()), Ok(()));
    assert_eq!(config.pending_edits.len(), 1);
    assert_eq!(config.domains[0].pending_edits.len(), 2);
}

#[test]
fn a_domain_answers_for_itself() {
    let mut d = domain("d", "d.toml", vec![module("d.x", None)]);
    let create = |path: &str| ConfigEdit::CreateModule { path: path.to_string() };
    assert_eq!(d.enqueue_edit(&create("elsewhere")), Err(EditError::NotApplicable));
    assert_eq!(d.enqueue_edit(&create("dx")), Err(EditError::NotApplicable));
    assert_eq!(d.enqueue_edit(&create("d.x")), Err(EditError::ModuleAlreadyExists));
    assert_eq!(d.enqueue_edit(&create("d.y")), Ok(()));
    assert_eq!(
        d.enqueue_edit(&ConfigEdit::AddSourceRoot { filepath: "src".to_string() }),
        Err(EditError::NotApplicable)
    );
    assert_eq!(
        d.enqueue_edit(&ConfigEdit::DeleteModule { path: "d.q".to_string() }),
        Err(EditError::ModuleNotFound)
    );
    assert_eq!(d.enqueue_edit(&ConfigEdit::DeleteModule { path: "d.x".to_string() }), Ok(()));
    assert_eq!(d.pending_edits.len(), 2);
    assert!(d.has_edits());
    assert_eq!(d.modules().len(), 1);
    assert!(d.interfaces().is_empty());
}

#[test]
fn saving_nothing_is_over_at_once() {
    let mut config = project(vec![module("a", None)]);
    config.add_domain(domain("d", "d.toml", vec![]));
    assert!(matches!(config.apply_edits(SaveEvent::Start), SaveAction::Done(Ok(()))));
    assert!(matches!(config.save_edits(SaveEvent::Start), SaveAction::Done(Ok(()))));
}

#[test]
fn saving_without_a_document_fails() {
    let mut config = ProjectConfig::default();
    config.add_source_root("src".to_string()).unwrap();
    assert!(matches!(
        config.save_edits(SaveEvent::Start),
        SaveAction::Done(Err(EditError::ConfigDoesNotExist))
    ));
    assert!(config.has_edits());
}

#[test]
fn saving_reports_each_failure_and_keeps_the_queue() {
    let mut config = ProjectConfig::default();
    config.set_location("tach.toml".to_string());
    config.add_source_root("src".to_string()).unwrap();
    match config.save_edits(SaveEvent::Start) {
        SaveAction::Load { location } => assert_eq!(location, "tach.toml"),
        other => panic!("{:?}", other),
    }
    assert!(matches!(
        config.save_edits(SaveEvent::Loaded(None)),
        SaveAction::Done(Err(EditError::ConfigDoesNotExist))
    ));
    assert!(matches!(
        config.save_edits(SaveEvent::Loaded(Some("source_roots = [".to_string()))),
        SaveAction::Done(Err(EditError::ParsingFailed))
    ));
    assert!(matches!(
        config.save_edits(SaveEvent::Written(false)),
        SaveAction::Done(Err(EditError::DiskWriteFailed))
    ));
    assert_eq!(config.pending_edits.len(), 1);
}

#[test]
fn saving_round_trip_adds_the_source_root_once() {
    let mut disk = "# roots\nsource_roots = [\"backend\"] # keep\nexact = true\n".to_string();
    let mut config = ProjectConfig::default();
    config.set_location("tach.toml".to_string());
    config.add_source_root("src".to_string()).unwrap();
    let mut action = config.save_edits(SaveEvent::Start);
    let mut writes = 0;
    loop {
        action = match action {
            SaveAction::Done(outcome) => {
                assert_eq!(outcome, Ok(()));
                break;
            }
            SaveAction::Load { location } => {
                assert_eq!(location, "tach.toml");
                config.save_edits(SaveEvent::Loaded(Some(disk.clone())))
            }
            SaveAction::Write { location, text } => {
                assert_eq!(location, "tach.toml");
                disk = text;
                writes += 1;
                config.save_edits(SaveEvent::Written(true))
            }
        };
    }
    assert_eq!(writes, 1);
    assert!(!config.has_edits());
    assert_eq!(disk, "# roots\nsource_roots = [\"backend\", \"src\"] # keep\nexact = true\n");
    let reloaded = disk.parse::<toml_edit::DocumentMut>().unwrap();
    let roots: Vec<&str> = reloaded["source_roots"]
        .as_array()
        .unwrap()
        .iter()
        .map(|v| v.as_str().unwrap())
        .collect();
    assert_eq!(roots, vec!["backend", "src"]);
}

#[test]
fn saving_takes_the_domains_first() {
    let mut config = project(vec![module("a", None)]);
    config.set_location("tach.toml".to_string());
    config.add_domain(domain("d", "d/tach.domain.toml", vec![module("d.x", None)]));
    config.mark_module_as_utility("d.x".to_string()).unwrap();
    config.mark_module_as_utility("a".to_string()).unwrap();
    match config.save_edits(SaveEvent::Start) {
        SaveAction::Load { location } => assert_eq!(location, "d/tach.domain.toml"),
        other => panic!("{:?}", other),
    }
    let domain_text = "[[modules]]\npath = \"d.x\"\n".to_string();
    match config.save_edits(SaveEvent::Loaded(Some(domain_text))) {
        SaveAction::Write { location, text } => {
            assert_eq!(location, "d/tach.domain.toml");
            assert_eq!(text, "[[modules]]\npath = \"d.x\"\nutility = true\n");
        }
        other => panic!("{:?}", other),
    }
    match config.save_edits(SaveEvent::Written(true)) {
        SaveAction::Load { location } => assert_eq!(location, "tach.toml"),
        other => panic!("{:?}", other),
    }
    assert!(config.domains[0].pending_edits.is_empty());
    assert!(config.has_edits());
    match config.save_edits(SaveEvent::Loaded(Some("[[modules]]\npath = \"a\"\n".to_string()))) {
        SaveAction::Write { location, text } => {
            assert_eq!(location, "tach.toml");
            assert_eq!(text, "[[modules]]\npath = \"a\"\nutility = true\n");
        }
        other => panic!("{:?}", other),
    }
    assert!(matches!(config.save_edits(SaveEvent::Written(true)), SaveAction::Done(Ok(()))));
    assert!(!config.has_edits());
}
