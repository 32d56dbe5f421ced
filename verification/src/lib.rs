//! Local synchronization and progress tracking for an online
//! coding-exercise course: canonical task paths, idempotent planning of
//! starter files and READMEs, append-only archiving of submission
//! history, and a persisted progress record that answers which task to
//! work on next. Everything that decides is here and verified; fetching
//! and file writes stay with the caller, which performs exactly the
//! writes these functions plan.

pub mod archive;
pub mod materialize;
pub mod meta;
pub mod model;
pub mod paths;
pub mod sync;
pub mod text;
