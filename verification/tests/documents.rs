use tach::config::apply::{apply_edit, edited_document};
use tach::config::edit::{ConfigEdit, EditError};

const POLICY: &str = "# what may depend on what\nsource_roots = [\"backend\"] # where the code lies\n\n[[modules]]\npath = \"a\"\ndepends_on = [\"b\", { path = \"c\", deprecated = true }]\n\n# b is a leaf\n[[modules]]\npath = \"b\"\ndepends_on = []\n";

fn edited(edits: Vec<ConfigEdit>) -> String {
    edited_document(POLICY, &edits).unwrap()
}

#[test]
fn no_edits_keep_the_text() {
    assert_eq!(edited(vec![]), POLICY);
}

#[test]
fn malformed_document_is_refused() {
    let edits = vec![ConfigEdit::AddSourceRoot { filepath: "src".to_string() }];
    assert_eq!(edited_document("[[modules]\npath = ", &edits), Err(EditError::ParsingFailed));
}

#[test]
fn source_root_is_added_once_and_comments_stay() {
    let out = edited(vec![ConfigEdit::AddSourceRoot { filepath: "src".to_string() }]);
    assert_eq!(
        out,
        POLICY.replace("[\"backend\"]", "[\"backend\", \"src\"]")
    );
    let again = edited_document(&out, &vec![ConfigEdit::AddSourceRoot { filepath: "src".to_string() }])
        .unwrap();
    assert_eq!(again, out);
    assert_eq!(again.matches("\"src\"").count(), 1);
    assert!(again.contains("# what may depend on what"));
    assert!(again.contains("# where the code lies"));
    assert!(again.contains("# b is a leaf"));
}

#[test]
fn source_root_is_removed() {
    let out = edited(vec![ConfigEdit::RemoveSourceRoot { filepath: "backend".to_string() }]);
    assert_eq!(out, POLICY.replace("[\"backend\"]", "[]"));
}

#[test]
fn source_roots_that_are_no_array_are_left_alone() {
    let text = "source_roots = \"backend\"\n";
    let out = edited_document(text, &vec![ConfigEdit::AddSourceRoot { filepath: "src".to_string() }])
        .unwrap();
    assert_eq!(out, text);
}

#[test]
fn module_is_created_at_the_end() {
    let out = edited(vec![ConfigEdit::CreateModule { path: "c.d".to_string() }]);
    assert_eq!(out, format!("{}\n[[modules]]\npath = \"c.d\"\ndepends_on = []\n", POLICY));
}

#[test]
fn module_is_created_in_a_document_without_modules() {
    let out = edited_document("exact = true\n", &vec![ConfigEdit::CreateModule { path: "a".to_string() }])
        .unwrap();
    assert_eq!(out, "exact = true\n\n[[modules]]\npath = \"a\"\ndepends_on = []\n");
}

#[test]
fn module_is_deleted() {
    let out = edited(vec![ConfigEdit::DeleteModule { path: "b".to_string() }]);
    assert!(!out.contains("path = \"b\""));
    assert!(out.contains("path = \"a\""));
    assert!(out.contains("# what may depend on what"));
}

#[test]
fn utility_is_marked_and_unmarked() {
    let marked = edited(vec![ConfigEdit::MarkModuleAsUtility { path: "b".to_string() }]);
    assert_eq!(
        marked,
        POLICY.replace("path = \"b\"\ndepends_on = []\n", "path = \"b\"\ndepends_on = []\nutility = true\n")
    );
    let unmarked = edited_document(
        &marked,
        &vec![ConfigEdit::UnmarkModuleAsUtility { path: "b".to_string() }],
    )
    .unwrap();
    assert_eq!(unmarked, POLICY);
}

#[test]
fn dependency_is_added_and_removed() {
    let added = edited(vec![ConfigEdit::AddDependency {
        path: "b".to_string(),
        dependency: "a".to_string(),
    }]);
    assert_eq!(added, POLICY.replace("path = \"b\"\ndepends_on = []", "path = \"b\"\ndepends_on = [\"a\"]"));
    let removed = edited(vec![ConfigEdit::RemoveDependency {
        path: "a".to_string(),
        dependency: "b".to_string(),
    }]);
    assert!(removed.contains("{ path = \"c\", deprecated = true }"));
    assert!(!removed.contains("\"b\","));
}

#[test]
fn edits_of_an_unknown_module_change_nothing() {
    let out = edited(vec![
        ConfigEdit::MarkModuleAsUtility { path: "zzz".to_string() },
        ConfigEdit::AddDependency { path: "zzz".to_string(), dependency: "a".to_string() },
        ConfigEdit::DeleteModule { path: "zzz".to_string() },
    ]);
    assert_eq!(out, POLICY);
}

#[test]
fn edits_are_made_in_order() {
    let out = edited(vec![
        ConfigEdit::CreateModule { path: "n".to_string() },
        ConfigEdit::AddDependency { path: "n".to_string(), dependency: "a".to_string() },
        ConfigEdit::MarkModuleAsUtility { path: "n".to_string() },
    ]);
    assert_eq!(
        out,
        format!("{}\n[[modules]]\npath = \"n\"\ndepends_on = [\"a\"]\nutility = true\n", POLICY)
    );
}

#[test]
fn one_edit_on_a_parsed_document() {
    let mut doc = POLICY.parse::<toml_edit::DocumentMut>().unwrap();
    apply_edit(&mut doc, &ConfigEdit::DeleteModule { path: "a".to_string() });
    let modules = doc["modules"].as_array_of_tables().unwrap();
    assert_eq!(modules.len(), 1);
    assert_eq!(modules.get(0).unwrap()["path"].as_str(), Some("b"));
}
