pub mod elapsed;
pub mod input;
pub mod manager;
pub mod recorder;
