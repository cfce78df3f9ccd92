use codemarks::{
    count_resolved, count_unresolved, default_annotation_pattern, load_global_config_no_storage,
    load_global_projects_no_storage, resolved_prefix, save_global_config_no_storage,
    save_global_projects_no_storage, Codemark, CodemarksConfig, ProjectsDatabase,
};

fn mark(file: &str, line: usize, text: &str, resolved: bool) -> Codemark {
    Codemark {
        file: file.to_string(),
        line_number: line,
        description: text.to_string(),
        resolved,
    }
}

#[test]
fn test_codemark_creation() {
    let codemark = Codemark {
        file: "test.rs".to_string(),
        line_number: 42,
        description: "This is a test TODO".to_string(),
        resolved: false,
    };

    assert_eq!(codemark.file, "test.rs");
    assert_eq!(codemark.line_number, 42);
    assert_eq!(codemark.description, "This is a test TODO");
    assert!(!codemark.resolved);
}

#[test]
fn test_default_annotation_pattern() {
    let pattern = default_annotation_pattern();
    assert!(pattern.contains("TODO"));
    assert!(pattern.contains("FIXME"));
    assert!(pattern.contains("HACK"));
}

#[test]
fn test_codemarks_config_default() {
    let config = CodemarksConfig::default();
    assert_eq!(config.annotation_pattern, default_annotation_pattern());
}

#[test]
fn test_projects_database_default() {
    let db = ProjectsDatabase::default();
    assert!(db.is_empty());
}

#[test]
fn test_projects_database_operations() {
    let mut db = ProjectsDatabase::default();
    let codemark = Codemark {
        file: "test.rs".to_string(),
        line_number: 1,
        description: "Test annotation".to_string(),
        resolved: false,
    };

    db.insert("test_project".to_string(), vec![codemark.clone()]);

    assert_eq!(db.len(), 1);
    assert!(db.contains_key("test_project"));
    assert_eq!(db.get("test_project").unwrap().len(), 1);
    assert_eq!(
        db.get("test_project").unwrap()[0].description,
        "Test annotation"
    );
}

fn check_clean_data_structures() {
    let mut test_db = ProjectsDatabase::default();
    let resolved_item = mark("test.rs", 1, "Done", true);
    let unresolved_item = mark("test.rs", 2, "TODO", false);
    test_db.insert("test".to_string(), vec![resolved_item, unresolved_item]);

    for (_project_name, codemarks) in test_db.entries() {
        let unresolved: Vec<_> = codemarks.iter().filter(|c| !c.resolved).collect();
        let resolved: Vec<_> = codemarks.iter().filter(|c| c.resolved).collect();

        assert_eq!(unresolved.len(), 1);
        assert_eq!(resolved.len(), 1);
        assert_eq!(unresolved[0].description, "TODO");
        assert_eq!(resolved[0].description, "Done");
        assert_eq!(count_unresolved(codemarks), 1);
        assert_eq!(count_resolved(codemarks), 1);
    }
}

#[test]
fn clean_test_clean_resolved_data_structures() {
    check_clean_data_structures();
}

#[test]
fn tests_test_clean_resolved_data_structures() {
    check_clean_data_structures();
}

fn check_list_functionality() {
    let mut projects_db = ProjectsDatabase::default();
    let resolved_codemark = mark("test1.rs", 1, "Resolved task", true);
    let unresolved_codemark = mark("test2.rs", 2, "Unresolved task", false);
    projects_db.insert(
        "test_project".to_string(),
        vec![resolved_codemark, unresolved_codemark],
    );
    projects_db.insert("empty_project".to_string(), vec![]);

    assert_eq!(projects_db.len(), 2);
    assert_eq!(projects_db.get("test_project").unwrap().len(), 2);
    assert_eq!(projects_db.get("empty_project").unwrap().len(), 0);

    for (_name, codemarks) in projects_db.entries() {
        for codemark in codemarks {
            let prefix = resolved_prefix(codemark.resolved);
            if codemark.resolved {
                assert_eq!(prefix, "\u{2705} ");
            } else {
                assert_eq!(prefix, "   ");
            }
        }
    }
}

#[test]
fn list_test_list_codemarks_functionality() {
    check_list_functionality();
}

#[test]
fn tests_test_list_codemarks_functionality() {
    check_list_functionality();
}

#[test]
fn insert_replaces_existing_project() {
    let mut db = ProjectsDatabase::new();
    db.insert("p".to_string(), vec![mark("a.rs", 1, "x", false)]);
    db.insert("q".to_string(), vec![]);
    db.insert("p".to_string(), vec![mark("b.rs", 2, "y", true), mark("c.rs", 3, "z", false)]);
    assert_eq!(db.len(), 2);
    assert_eq!(db.get("p").unwrap().len(), 2);
    assert_eq!(db.get("p").unwrap()[0].file, "b.rs");
    assert!(db.get("r").is_none());
    assert!(!db.contains_key("r"));
    assert_eq!(db.entries()[0].0, "p");
    assert_eq!(db.entries()[1].0, "q");
}

#[test]
fn total_unresolved_counts_every_project() {
    let mut db = ProjectsDatabase::new();
    db.insert(
        "p".to_string(),
        vec![mark("a.rs", 1, "x", false), mark("a.rs", 2, "y", true)],
    );
    db.insert(
        "q".to_string(),
        vec![mark("b.rs", 1, "x", false), mark("b.rs", 5, "z", false)],
    );
    assert_eq!(db.total_unresolved(), 3);
}

#[test]
fn ephemeral_storage_reads_nothing_and_writes_nothing() {
    let config = load_global_config_no_storage();
    assert_eq!(config.annotation_pattern, default_annotation_pattern());
    assert!(save_global_config_no_storage(&config).is_ok());
    let db = load_global_projects_no_storage();
    assert!(db.is_empty());
    assert!(save_global_projects_no_storage(&db).is_ok());
}
