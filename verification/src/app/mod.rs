pub mod state;
pub mod widget;

pub use state::{InputResult, Progress};
