//! The store and configuration in ephemeral (no-storage) mode, and the exit
//! status of CI mode. Persisting to disk is left to the caller.
use vstd::prelude::*;
use crate::codemark::{default_pattern_text, CodemarksConfig, MarkView};
use crate::store::ProjectsDatabase;

verus! {

impl Default for ProjectsDatabase {
    fn default() -> (r: ProjectsDatabase)
        ensures
            r.wf(),
            r@ == Seq::<(Seq<char>, Seq<MarkView>)>::empty(),
    {
        ProjectsDatabase::new()
    }
}

/// The configuration in ephemeral mode: nothing is read, so it is the default.
pub fn load_global_config_no_storage() -> (r: CodemarksConfig)
    ensures
        r.annotation_pattern@ == default_pattern_text(),
{
    CodemarksConfig::default()
}

/// Saving the configuration in ephemeral mode: nothing is written.
pub fn save_global_config_no_storage(_config: &CodemarksConfig) -> (r: Result<(), String>)
    ensures
        r is Ok,
{
    Ok(())
}

/// The store in ephemeral mode: nothing is read, so it is empty.
pub fn load_global_projects_no_storage() -> (r: ProjectsDatabase)
    ensures
        r.wf(),
        r@ == Seq::<(Seq<char>, Seq<MarkView>)>::empty(),
{
    ProjectsDatabase::new()
}

/// Saving the store in ephemeral mode: nothing is written.
pub fn save_global_projects_no_storage(_projects_db: &ProjectsDatabase) -> (r: Result<(), String>)
    ensures
        r is Ok,
{
    Ok(())
}

/// The exit status of CI mode: 0 when no annotation was found, 1 otherwise.
pub fn ci_exit_code(found: usize) -> (r: i32)
    ensures
        r == if found == 0 { 0i32 } else { 1i32 },
{
    if found == 0 {
        0
    } else {
        1
    }
}

} // verus!
