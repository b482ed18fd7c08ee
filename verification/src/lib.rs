//! The logic of the Chainvet web UI server: analyzer reports, warnings,
//! summaries, the directory listing, and the one running analysis job.

pub mod analysis;
pub mod error;
pub mod files;
pub mod findings;
pub mod jobs;
pub mod json;
pub mod mode;
pub mod order;
pub mod paths;
pub mod progress;
pub mod severity;
pub mod summary;
pub mod text;
pub mod warnings;
