pub mod command;
pub mod file_system;
pub mod shell;
pub mod text;
