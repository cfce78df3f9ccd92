//! Tracks inline code annotations (TODO / FIXME / HACK comments) across
//! repeated scans of a project: line matching, reconciliation of a fresh
//! scan against the stored set, the per-project store, the clean-up pass,
//! the watch-mode debouncer and manifest-based project naming.

pub mod codemark;
pub mod reconcile;
pub mod store;
pub mod text;
pub mod matcher;
pub mod filter;
pub mod debounce;
pub mod storage;
pub mod parse;
pub mod project;

pub use codemark::{default_annotation_pattern, Codemark, CodemarksConfig};
pub use debounce::Debouncer;
pub use filter::{
    file_extension, final_component, is_binary_extension, is_binary_path, should_ignore_file,
    should_skip_in_scan,
};
pub use matcher::{is_plausible_description, AnnotationMatcher};
pub use reconcile::reconcile;
pub use storage::{
    ci_exit_code, load_global_config_no_storage, load_global_projects_no_storage,
    save_global_config_no_storage, save_global_projects_no_storage,
};
pub use store::{count_resolved, count_unresolved, resolved_prefix, ProjectsDatabase};
pub use project::{detect_project_name, manifest_name, ManifestFiles, ManifestKind};
