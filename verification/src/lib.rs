//! Safe, predictable organization of messy folders: classification,
//! planning, policy validation and the watch state machines, verified.
pub mod text;
pub mod path;
pub mod domain;
pub mod utils;
pub mod config;
pub mod meta_template;
pub mod classifier;
pub mod scanner;
pub mod planner;
pub mod meta_plan;
pub mod explain;
pub mod executor;
pub mod recovery;
pub mod history;
pub mod watch;
pub mod render;
pub mod preview;
pub mod report;
pub mod folders_view;
pub mod folders;
pub mod update_check;
pub mod metadata;
pub mod content;
pub mod box_tree;
