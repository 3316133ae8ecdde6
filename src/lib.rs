//! Renames photographs of auction objects after their lot numbers.
//!
//! A tab-delimited data file ties each inventory number to a lot number.
//! Every file whose name starts with an inventory number is renamed to
//! `<lot>_<suffix>.jpg`, where `<suffix>` is the second period-delimited
//! segment of the old name.
pub mod config;
pub mod names;
pub mod plan;
pub mod records;

pub use config::{ArgumentError, Config};
pub use names::{compose_new_name, extract_file_suffix, filter_object_files, has_prefix};
pub use plan::{determine_renamings, PlanError, RenamePlan};
pub use records::{plan_renamings, read_rows, RenameError};
