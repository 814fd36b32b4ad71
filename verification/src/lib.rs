pub mod case;
pub mod case_relation;
pub mod error;
pub mod fatal_error;
pub mod format;
pub mod cased_string;
pub mod idempotence;
pub mod into_io_failed;
pub mod laws;
pub mod locale;
pub mod move_policy;
pub mod moved_lines;
pub mod paragraph;
pub mod row;
pub mod run;
pub mod settings;
pub mod sorting;
pub mod state_machine;
pub mod text;
