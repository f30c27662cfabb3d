//! Rule engine of a vault automation daemon: configuration, triggers,
//! frontmatter framing, wikilink extraction and resolution, and the
//! decisions behind each action.
pub mod text;
pub mod paths;
pub mod vault;
pub mod config;
pub mod watcher;
pub mod rules;
pub mod git;
pub mod actions;
