pub mod commands;
pub mod error;
pub mod num;
pub mod reader;
pub mod resp;
pub mod set_type;
pub mod store;
pub mod string_type;
