pub mod command;
pub mod process_update;
