//! A verified runtime core for a desktop agent workbench: prompt and context
//! packing, session transcripts and the run scheduler.
pub mod text;
pub mod order;
pub mod paths;
pub mod context;
pub mod model;
pub mod clock;
pub mod workbench;
pub mod prompt;
pub mod schedule;
pub mod usage;
pub mod skills;
pub mod files;
pub mod snapshot;
pub mod launch;
