pub mod command;
pub mod flow;
pub mod registry;
