pub mod errors;
pub mod message;
