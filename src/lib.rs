//! A personal budgeting library: one-off bookings, recurring monthly and
//! yearly entries, categories, and the overview figures derived from them.
//!
//! Money is held as whole cents (`u32`).  Figures on a monthly basis are held
//! as `i128` counts of twelfths of a cent, so that a yearly amount divided by
//! twelve is represented exactly.
pub mod amount;
pub mod calculation;
pub mod category_map;
pub mod commands;
pub mod dataservice;
pub mod laws;
pub mod model;
pub mod settings;
pub mod tokens;
pub mod ui;

pub use calculation::{calculate_total, CalcResult};
pub use category_map::CategoryMap;
pub use commands::{handle_command, Command, CommandError};
pub use dataservice::{CategorySum, DataService, Snapshot};
pub use model::{BookEntry, Category, EntryType, RecurringEntry, RecurringType, Setting};
pub use ui::{get_command_help_text, App, Key, KeyAction, UIMode, UserInterface};
