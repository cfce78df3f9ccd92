use codemarks::{
    default_annotation_pattern, is_plausible_description, AnnotationMatcher, Codemark,
    CodemarksConfig,
};

const WIDE_PATTERN: &str = r"(?i)(?://|#|<!--)\s*(?:TODO|FIXME|HACK|NOTE|BUG|OPTIMIZE|REVIEW)(?:\([^)]*\))?\s*:?\s*(.*)";
const STAR_PATTERN: &str = r"(?i)(?://|#|<!--|\*)\s*(?:TODO|FIXME|HACK|NOTE|BUG|OPTIMIZE|REVIEW)(?:\([^)]*\))?\s*:?\s*(.*)";

fn scan(pattern: &str, file: &str, content: &str) -> Vec<Codemark> {
    let matcher = AnnotationMatcher::new(pattern).unwrap();
    let lines: Vec<String> = content.lines().map(|l| l.to_string()).collect();
    matcher.scan_lines(file, &lines)
}

fn check_scan_with_annotations() {
    let result = scan(WIDE_PATTERN, "test.rs", "// TODO: Fix this\nfn main() {}\n// FIXME: Another issue");
    assert_eq!(result.len(), 2);
    assert_eq!(result[0].description, "Fix this");
    assert_eq!(result[1].description, "Another issue");
}

#[test]
fn tests_test_scan_file_with_annotations() {
    check_scan_with_annotations();
}

#[test]
fn watch_test_scan_file_with_annotations() {
    check_scan_with_annotations();
}

fn check_scan_without_annotations() {
    let result = scan(WIDE_PATTERN, "test.rs", "fn main() {\n    println!(\"Hello world!\");\n}");
    assert_eq!(result.len(), 0);
}

#[test]
fn tests_test_scan_file_without_annotations() {
    check_scan_without_annotations();
}

#[test]
fn watch_test_scan_file_without_annotations() {
    check_scan_without_annotations();
}

fn check_different_annotation_types() {
    let result = scan(
        STAR_PATTERN,
        "multi.rs",
        "// TODO: Task 1\n# FIXME: Bug in shell script\n<!-- HACK: Quick fix -->\n* NOTE: Important note\nlet x = 5;",
    );
    assert_eq!(result.len(), 4);
    assert_eq!(result[0].description, "Task 1");
    assert_eq!(result[1].description, "Bug in shell script");
    assert_eq!(result[2].description, "Quick fix -->");
    assert_eq!(result[3].description, "Important note");
}

#[test]
fn tests_test_scan_file_different_annotation_types() {
    check_different_annotation_types();
}

#[test]
fn watch_test_scan_file_different_annotation_types() {
    check_different_annotation_types();
}

fn check_line_numbers() {
    let result = scan(
        WIDE_PATTERN,
        "lines.rs",
        "fn main() {\n    println!(\"Hello\");\n    // TODO: Line 3 task\n    let x = 5;\n    // FIXME: Line 5 bug\n}",
    );
    assert_eq!(result.len(), 2);
    assert_eq!(result[0].line_number, 3);
    assert_eq!(result[0].description, "Line 3 task");
    assert_eq!(result[1].line_number, 5);
    assert_eq!(result[1].description, "Line 5 bug");
}

#[test]
fn tests_test_scan_file_line_numbers_correct() {
    check_line_numbers();
}

#[test]
fn watch_test_scan_file_line_numbers_correct() {
    check_line_numbers();
}

fn check_complex_regex() {
    let result = scan(
        WIDE_PATTERN,
        "complex.rs",
        "// TODO(john): Assigned task\n// FIXME: Simple fix\n// HACK(urgent): Quick solution\n// NOTE: Just a note",
    );
    assert_eq!(result.len(), 4);
    assert_eq!(result[0].description, "Assigned task");
    assert_eq!(result[1].description, "Simple fix");
    assert_eq!(result[2].description, "Quick solution");
    assert_eq!(result[3].description, "Just a note");
}

#[test]
fn tests_test_scan_file_with_complex_regex() {
    check_complex_regex();
}

#[test]
fn watch_test_scan_file_with_complex_regex() {
    check_complex_regex();
}

fn check_set_and_reset() {
    let mut config = CodemarksConfig::default();
    assert!(config.set_pattern("CUSTOM|PATTERN").is_ok());
    assert_eq!(config.annotation_pattern, "CUSTOM|PATTERN");
    config = CodemarksConfig::default();
    let default = default_annotation_pattern();
    assert_eq!(config.annotation_pattern, default);
    assert!(default.contains("TODO"));
    assert!(default.contains("FIXME"));
    assert!(default.contains("HACK"));
}

#[test]
fn config_test_config_set_and_reset() {
    check_set_and_reset();
}

#[test]
fn tests_test_config_set_and_reset() {
    check_set_and_reset();
}

fn check_invalid_pattern() {
    let mut config = CodemarksConfig::default();
    let result = config.set_pattern("[invalid regex(");
    assert!(result.is_err());
    assert_eq!(config.annotation_pattern, default_annotation_pattern());
}

#[test]
fn config_test_config_invalid_pattern() {
    check_invalid_pattern();
}

#[test]
fn tests_test_config_invalid_pattern() {
    check_invalid_pattern();
}

#[test]
fn invalid_pattern_keeps_previous_custom_pattern() {
    let mut config = CodemarksConfig::default();
    assert!(config.set_pattern("CUSTOM").is_ok());
    assert!(config.set_pattern("(unclosed").is_err());
    assert_eq!(config.annotation_pattern, "CUSTOM");
}

#[test]
fn matcher_rejects_invalid_pattern() {
    assert!(AnnotationMatcher::new("[invalid regex(").is_err());
    let m = AnnotationMatcher::new("CUSTOM").unwrap();
    assert_eq!(m.pattern(), "CUSTOM");
}

#[test]
fn default_pattern_captures_trimmed_remainder() {
    let m = AnnotationMatcher::new(&default_annotation_pattern()).unwrap();
    assert_eq!(m.describe("    // todo:   tidy up   ").as_deref(), Some("tidy up"));
    assert_eq!(m.describe("# HACK temporary").as_deref(), Some("temporary"));
    assert_eq!(m.describe("<!-- FIXME: broken link").as_deref(), Some("broken link"));
    assert_eq!(m.describe("let todo = 1;"), None);
}

#[test]
fn pattern_without_group_records_whole_trimmed_line() {
    let m = AnnotationMatcher::new("CUSTOM").unwrap();
    assert_eq!(m.describe("  // CUSTOM: Fix this  ").as_deref(), Some("// CUSTOM: Fix this"));
    assert_eq!(m.describe("// TODO: Another issue"), None);
}

#[test]
fn pattern_syntax_in_description_is_discarded() {
    let m = AnnotationMatcher::new(&default_annotation_pattern()).unwrap();
    assert_eq!(m.describe(r"// TODO: match (?:TODO|FIXME)\s*(.*)"), None);
    assert!(!is_plausible_description(r"(?i)abc"));
    assert!(!is_plausible_description(&"x".repeat(501)));
    assert!(is_plausible_description(&"x".repeat(500)));
    assert!(is_plausible_description("fix the (simple) case"));
}

#[test]
fn scan_lines_sets_file_and_unresolved() {
    let result = scan(&default_annotation_pattern(), "src/a.rs", "x\n// TODO: fix X\n");
    assert_eq!(result.len(), 1);
    assert_eq!(result[0].file, "src/a.rs");
    assert_eq!(result[0].line_number, 2);
    assert_eq!(result[0].description, "fix X");
    assert!(!result[0].resolved);
}
