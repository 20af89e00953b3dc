//! Release notes from a range of commits: each commit is classified, the
//! upgrades of each package are merged into one range of versions, and the
//! document is assembled in a fixed order.
pub mod classify;
pub mod consolidate;
pub mod history;
pub mod notes;
pub mod order;
pub mod parse;
pub mod pattern;
pub mod remote;
pub mod text;

pub use classify::{
    file_commit, process_commit, process_commit_with_pr, resume_with_body, resume_with_search,
    ProcessedCommit, SearchHit, Step,
};
pub use consolidate::{consolidate_dependabot_updates, consolidate_entries, ConsolidatedEntry};
pub use notes::generate_release_notes;
pub use parse::{parse_update_line, ParsedUpdate};
pub use remote::repository_of;
