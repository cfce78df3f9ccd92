use codemarks::{
    ci_exit_code, default_annotation_pattern, reconcile, AnnotationMatcher, Codemark, Debouncer,
    ProjectsDatabase,
};

fn mark(file: &str, line: usize, text: &str, resolved: bool) -> Codemark {
    Codemark {
        file: file.to_string(),
        line_number: line,
        description: text.to_string(),
        resolved,
    }
}

fn scan_text(file: &str, content: &str) -> Vec<Codemark> {
    let matcher = AnnotationMatcher::new(&default_annotation_pattern()).unwrap();
    let lines: Vec<String> = content.lines().map(|l| l.to_string()).collect();
    matcher.scan_lines(file, &lines)
}

#[test]
fn example_scenario_full_lifecycle() {
    let mut db = ProjectsDatabase::new();

    let found = scan_text("a.rs", "fn main() {}\n// TODO: fix X\n");
    assert_eq!(db.scan_project("a", &found), 1);
    let marks = db.get("a").unwrap();
    assert_eq!(marks.len(), 1);
    assert_eq!(marks[0].line_number, 2);
    assert!(!marks[0].resolved);

    let found = scan_text("a.rs", "fn main() {}\n// FIXME: fix Y\nlet a = 1;\nlet b = 2;\n// TODO: fix X\n");
    assert_eq!(db.scan_project("a", &found), 2);
    let marks = db.get("a").unwrap();
    assert_eq!(marks.len(), 2);
    assert_eq!(marks[0].description, "fix X");
    assert_eq!(marks[0].line_number, 5);
    assert_eq!(marks[1].description, "fix Y");
    assert_eq!(marks[1].line_number, 2);
    assert!(marks.iter().all(|m| !m.resolved));

    let found = scan_text("a.rs", "fn main() {}\nlet a = 1;\n");
    assert_eq!(db.scan_project("a", &found), 0);
    let marks = db.get("a").unwrap();
    assert_eq!(marks.len(), 2);
    assert!(marks.iter().all(|m| m.resolved));

    let cleaned = db.cleaned(&None);
    assert!(!cleaned.contains_key("a"));
    assert!(cleaned.is_empty());
}

#[test]
fn rescanning_unchanged_project_is_idempotent() {
    let mut db = ProjectsDatabase::new();
    db.insert("other".to_string(), vec![mark("o.rs", 1, "keep", false)]);
    let found = scan_text("a.rs", "// TODO: one\n// FIXME: two\n// TODO: one\n");
    let first = db.scan_project("a", &found);
    let after_first = db.get("a").unwrap().clone();
    let second = db.scan_project("a", &found);
    assert_eq!(first, 3);
    assert_eq!(second, first);
    let after_second = db.get("a").unwrap();
    assert_eq!(after_second.len(), 2);
    assert_eq!(after_first.len(), after_second.len());
    for (x, y) in after_first.iter().zip(after_second.iter()) {
        assert_eq!(x.file, y.file);
        assert_eq!(x.description, y.description);
        assert_eq!(x.line_number, y.line_number);
        assert_eq!(x.resolved, y.resolved);
    }
}

#[test]
fn duplicate_lines_fold_into_one_entry_at_last_line() {
    let found = vec![
        mark("a.rs", 1, "same", false),
        mark("a.rs", 7, "same", false),
    ];
    let result = reconcile(&vec![], &found);
    assert_eq!(result.len(), 1);
    assert_eq!(result[0].line_number, 7);
}

#[test]
fn removed_annotation_becomes_resolved_and_keeps_line() {
    let existing = vec![mark("a.rs", 4, "TODO: x", false), mark("a.rs", 9, "TODO: y", false)];
    let fresh = vec![mark("a.rs", 9, "TODO: y", false)];
    let result = reconcile(&existing, &fresh);
    assert_eq!(result.len(), 2);
    assert_eq!(result[0].description, "TODO: x");
    assert!(result[0].resolved);
    assert_eq!(result[0].line_number, 4);
    assert!(!result[1].resolved);
}

#[test]
fn shifted_annotation_updates_line_without_duplicate() {
    let existing = vec![mark("a.rs", 2, "fix X", false)];
    let fresh = vec![mark("a.rs", 12, "fix X", false)];
    let result = reconcile(&existing, &fresh);
    assert_eq!(result.len(), 1);
    assert_eq!(result[0].line_number, 12);
    assert!(!result[0].resolved);
}

#[test]
fn resolved_annotation_revives_when_it_returns() {
    let existing = vec![mark("a.rs", 2, "fix X", true)];
    let fresh = vec![mark("a.rs", 3, "fix X", false), mark("b.rs", 1, "new", false)];
    let result = reconcile(&existing, &fresh);
    assert_eq!(result.len(), 2);
    assert!(!result[0].resolved);
    assert_eq!(result[0].line_number, 3);
    assert_eq!(result[1].file, "b.rs");
    assert!(!result[1].resolved);
}

#[test]
fn same_text_in_other_file_is_a_new_entry() {
    let existing = vec![mark("a.rs", 2, "fix X", false)];
    let fresh = vec![mark("b.rs", 2, "fix X", false)];
    let result = reconcile(&existing, &fresh);
    assert_eq!(result.len(), 2);
    assert!(result[0].resolved);
    assert!(!result[1].resolved);
}

#[test]
fn clean_with_filter_leaves_other_projects() {
    let mut db = ProjectsDatabase::new();
    db.insert(
        "p".to_string(),
        vec![mark("a.rs", 1, "done", true), mark("a.rs", 2, "open", false)],
    );
    db.insert("q".to_string(), vec![mark("b.rs", 1, "done", true)]);
    db.insert("r".to_string(), vec![mark("c.rs", 1, "done", true)]);

    let only_q = db.cleaned(&Some("q".to_string()));
    assert_eq!(only_q.len(), 2);
    assert_eq!(only_q.get("p").unwrap().len(), 2);
    assert!(!only_q.contains_key("q"));
    assert_eq!(only_q.get("r").unwrap().len(), 1);

    let all = db.cleaned(&None);
    assert_eq!(all.len(), 1);
    let p = all.get("p").unwrap();
    assert_eq!(p.len(), 1);
    assert_eq!(p[0].description, "open");

    let none = db.cleaned(&Some("nonexistent".to_string()));
    assert_eq!(none.len(), 3);
}

#[test]
fn replace_file_marks_rebuilds_one_file() {
    let mut db = ProjectsDatabase::new();
    db.insert(
        "p".to_string(),
        vec![
            mark("/w/a.rs", 1, "old a", true),
            mark("/w/b.rs", 1, "b", false),
            mark("/w/a.rs", 5, "old a2", false),
        ],
    );
    let removed = db.replace_file_marks("p", "/w/a.rs", vec![mark("/w/a.rs", 3, "new a", false)]);
    assert_eq!(removed, 2);
    let marks = db.get("p").unwrap();
    assert_eq!(marks.len(), 2);
    assert_eq!(marks[0].file, "/w/b.rs");
    assert_eq!(marks[1].description, "new a");

    assert_eq!(db.replace_file_marks("missing", "/w/x.rs", vec![]), 0);
    assert!(!db.contains_key("missing"));
    assert_eq!(db.replace_file_marks("fresh", "/w/x.rs", vec![mark("/w/x.rs", 1, "x", false)]), 0);
    assert_eq!(db.get("fresh").unwrap().len(), 1);
}

#[test]
fn debouncer_processes_once_per_window() {
    let mut d = Debouncer::new(500);
    assert_eq!(d.window_ms(), 500);
    assert!(d.should_process("/w/a.rs", 1000));
    assert!(!d.should_process("/w/a.rs", 1200));
    assert!(d.should_process("/w/b.rs", 1200));
    assert!(!d.should_process("/w/a.rs", 1499));
    assert!(d.should_process("/w/a.rs", 1500));
    d.prune(2600);
    assert!(d.should_process("/w/a.rs", 2600));
}

#[test]
fn prune_forgets_old_paths() {
    let mut d = Debouncer::new(100);
    assert!(d.should_process("x", 0));
    assert!(d.should_process("y", 150));
    d.prune(200);
    assert!(!d.should_process("y", 200));
    assert!(d.should_process("x", 200));
}

#[test]
fn ci_exit_code_signals_findings() {
    assert_eq!(ci_exit_code(0), 0);
    assert_eq!(ci_exit_code(1), 1);
    assert_eq!(ci_exit_code(42), 1);
}

#[test]
fn scanning_empty_tree_creates_empty_project() {
    let mut db = ProjectsDatabase::new();
    assert_eq!(db.scan_project("empty", &vec![]), 0);
    assert!(db.contains_key("empty"));
    assert_eq!(db.get("empty").unwrap().len(), 0);
    let cleaned = db.cleaned(&None);
    assert!(cleaned.is_empty());
}

#[test]
fn update_file_skips_ignored_and_binary_files() {
    let matcher = AnnotationMatcher::new(&default_annotation_pattern()).unwrap();
    let mut db = ProjectsDatabase::new();
    let lines = vec!["// TODO: Important task".to_string(), "let x = 5;".to_string(), "// FIXME: Bug here".to_string()];
    assert_eq!(db.update_file(&matcher, &[], "test_project", "test.rs", &lines), 2);
    assert_eq!(db.get("test_project").unwrap().len(), 2);
    assert_eq!(db.update_file(&matcher, &["test.rs".to_string()], "test_project", "test.rs", &vec![]), 0);
    assert_eq!(db.get("test_project").unwrap().len(), 2);
    assert_eq!(db.update_file(&matcher, &[], "test_project", "photo.png", &lines), 0);
    assert_eq!(db.update_file(&matcher, &[], "test_project", "test.rs", &vec![]), 0);
    assert_eq!(db.get("test_project").unwrap().len(), 0);
}
