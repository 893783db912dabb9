pub mod text;
pub mod process_tree;
pub mod search;
pub mod columns;
pub mod services;
pub mod graph;
pub mod performance;
pub mod history;
pub mod summary;
pub mod titles;
pub mod icons;
pub mod first_run;
pub mod preferences;
pub mod about;
pub mod tree;
